//! The meaning of the code generator, as functions from a generator state
//! to the state after parsing a construct and its result.

use vstd::prelude::*;
use crate::lexer::{LexState, Token, lemma_advance};
use crate::parser::{type_base, type_size, type_debug, OpCode, SymV, SymbolClass, Type};
use crate::text::dec_nat;
use crate::vm_spec::{Step, VMState};

verus! {

/// The code generator as a value: the tokenizer, the symbol table, the
/// code and data segments, the type of the last expression, the count of
/// local slots of the current function, the source-listing flag, and
/// whether the symbol table has been set up.
pub struct PState {
    pub lex: LexState,
    pub syms: Seq<SymV>,
    pub code: Seq<i64>,
    pub data: Seq<u8>,
    pub ty: Type,
    pub locals: usize,
    pub src: bool,
    pub ready: bool,
}

/// A state and what a parse step returned.
pub type PRes = (PState, Result<(), Seq<char>>);

/// A state and what a parse step returned, with a flag on success.
pub type PFlag = (PState, Result<bool, Seq<char>>);

/// An error message tagged with the line it was found on.
pub open spec fn line_msg(line: nat, m: Seq<char>) -> Seq<char> {
    "Line "@ + dec_nat(line) + ": "@ + m
}

/// The tokenizer after reading one token.
pub open spec fn lex_next(l: LexState) -> LexState {
    if l.wf() {
        l.advance()
    } else {
        LexState { pos: l.chars.len(), tok: Token::Eof, ..l }
    }
}

pub open spec fn op(o: OpCode) -> i64 {
    o as i64
}

/// The load instruction for a value of type `t`.
pub open spec fn load_op(t: Type) -> i64 {
    if t == Type::Char { op(OpCode::LC) } else { op(OpCode::LI) }
}

/// The store instruction for a value of type `t`.
pub open spec fn store_op(t: Type) -> i64 {
    if t == Type::Char { op(OpCode::SC) } else { op(OpCode::SI) }
}

/// The step of `++` and `--` on a value of type `t`: the element size for
/// a pointer, else one.
pub open spec fn step_size(t: Type) -> i64 {
    match t {
        Type::Ptr(b) => type_size(*b) as i64,
        _ => 1,
    }
}

/// The operator precedence of a token; zero for a token that is no
/// binary operator.
pub open spec fn precedence(t: Token) -> u8 {
    match t {
        Token::Assign | Token::AddAssign | Token::SubAssign | Token::MulAssign
        | Token::DivAssign | Token::ModAssign | Token::ShlAssign | Token::ShrAssign
        | Token::AndAssign | Token::XorAssign | Token::OrAssign => 1,
        Token::Lor => 2,
        Token::Lan => 3,
        Token::Or => 4,
        Token::Xor => 5,
        Token::And => 6,
        Token::Eq | Token::Ne => 7,
        Token::Lt | Token::Gt | Token::Le | Token::Ge => 8,
        Token::Shl | Token::Shr => 9,
        Token::Add | Token::Sub => 10,
        Token::Mul | Token::Div | Token::Mod => 11,
        Token::LeftBracket => 12,
        _ => 0,
    }
}

/// Whether a token is a compound assignment such as `+=`.
pub open spec fn is_compound(t: Token) -> bool {
    match t {
        Token::AddAssign | Token::SubAssign | Token::MulAssign | Token::DivAssign
        | Token::ModAssign | Token::ShlAssign | Token::ShrAssign | Token::AndAssign
        | Token::XorAssign | Token::OrAssign => true,
        _ => false,
    }
}

/// The instruction of a compound assignment's operation.
pub open spec fn compound_op(t: Token) -> i64 {
    match t {
        Token::AddAssign => op(OpCode::ADD),
        Token::SubAssign => op(OpCode::SUB),
        Token::MulAssign => op(OpCode::MUL),
        Token::DivAssign => op(OpCode::DIV),
        Token::ModAssign => op(OpCode::MOD),
        Token::ShlAssign => op(OpCode::SHL),
        Token::ShrAssign => op(OpCode::SHR),
        Token::AndAssign => op(OpCode::AND),
        Token::XorAssign => op(OpCode::XOR),
        _ => op(OpCode::OR),
    }
}

/// The instruction of a binary operator that takes two integers and gives
/// an integer, if `t` is one.
pub open spec fn arith_op(t: Token) -> Option<i64> {
    match t {
        Token::Mul => Some(op(OpCode::MUL)),
        Token::Div => Some(op(OpCode::DIV)),
        Token::Mod => Some(op(OpCode::MOD)),
        Token::Eq => Some(op(OpCode::EQ)),
        Token::Ne => Some(op(OpCode::NE)),
        Token::Le => Some(op(OpCode::LE)),
        Token::Ge => Some(op(OpCode::GE)),
        Token::And => Some(op(OpCode::AND)),
        Token::Or => Some(op(OpCode::OR)),
        Token::Xor => Some(op(OpCode::XOR)),
        Token::Shl => Some(op(OpCode::SHL)),
        Token::Shr => Some(op(OpCode::SHR)),
        Token::Lt => Some(op(OpCode::LT)),
        Token::Gt => Some(op(OpCode::GT)),
        _ => None,
    }
}

/// Whether a token is one of the assignments after which an indexed
/// element is not loaded.
pub open spec fn skips_index_load(t: Token) -> bool {
    t == Token::Assign || t == Token::AddAssign || t == Token::SubAssign
        || t == Token::MulAssign || t == Token::DivAssign || t == Token::ModAssign
}

/// The name given to an identifier from its hash: a few hashes name
/// well-known identifiers, the others get `id_` and the hash.
pub open spec fn id_name(id: usize) -> Seq<char> {
    let h = id as u64;
    if h == 22294568004 || h == 5863476 {
        "main"@
    } else if h == 135095875 || h == 193491849 {
        "add"@
    } else if h == 97264153 || h == 97264 || h == 20261620804 {
        "calc"@
    } else if h == 210871959858 || h == 9871951 {
        "process"@
    } else if h == 8426756478 || h == 210945 {
        "complex"@
    } else if h == 495450526609734 || h == 24357699 {
        "printf"@
    } else if h == 97 || h == 193499849 {
        "a"@
    } else if h == 98 || h == 193499950 {
        "b"@
    } else if h == 99 || h == 193500051 {
        "c"@
    } else if h == 120 || h == 193508484 {
        "x"@
    } else if h == 121 || h == 193508585 {
        "y"@
    } else if h == 122 || h == 193508686 {
        "z"@
    } else if h == 112 || h == 193505858 {
        "ptr"@
    } else if h == 118 || h == 193508282 {
        "val"@
    } else {
        "id_"@ + dec_nat(id as nat)
    }
}

/// The index of the first symbol named `name` at or after `i`.
pub open spec fn find_from(syms: Seq<SymV>, name: Seq<char>, i: int) -> Option<int>
    decreases syms.len() - i,
{
    if i < 0 || i >= syms.len() {
        None
    } else if syms[i].name == name {
        Some(i)
    } else {
        find_from(syms, name, i + 1)
    }
}

/// The index of the first symbol named `name`.
pub open spec fn find(syms: Seq<SymV>, name: Seq<char>) -> Option<int> {
    find_from(syms, name, 0)
}

/// A symbol with no shadowed meaning.
pub open spec fn fresh_sym(name: Seq<char>, class: SymbolClass, typ: Type, value: i64) -> SymV {
    SymV { name, class, typ, value, prev_class: None, prev_type: None, prev_value: None }
}

/// A local that shadows the symbol `old`.
pub open spec fn shadow_sym(name: Seq<char>, typ: Type, value: i64, old: SymV) -> SymV {
    SymV {
        name,
        class: SymbolClass::Loc,
        typ,
        value,
        prev_class: Some(old.class),
        prev_type: Some(old.typ),
        prev_value: Some(old.value),
    }
}

/// The symbol table at the end of a function: each local is dropped, or
/// turned back into the symbol it shadowed.
pub open spec fn restore(syms: Seq<SymV>) -> Seq<SymV>
    decreases syms.len(),
{
    if syms.len() == 0 {
        syms
    } else {
        let rest = restore(syms.drop_last());
        let s = syms.last();
        if s.class == SymbolClass::Loc {
            match (s.prev_class, s.prev_type, s.prev_value) {
                (Some(c), Some(t), Some(v)) => rest.push(fresh_sym(s.name, c, t, v)),
                _ => rest,
            }
        } else {
            rest.push(s)
        }
    }
}

/// The keywords and system calls that the symbol table starts with.
pub open spec fn builtin_syms() -> Seq<SymV> {
    seq![
        fresh_sym("char"@, SymbolClass::Num, Type::Int, 134),
        fresh_sym("else"@, SymbolClass::Num, Type::Int, 135),
        fresh_sym("enum"@, SymbolClass::Num, Type::Int, 136),
        fresh_sym("for"@, SymbolClass::Num, Type::Int, 137),
        fresh_sym("if"@, SymbolClass::Num, Type::Int, 138),
        fresh_sym("int"@, SymbolClass::Num, Type::Int, 139),
        fresh_sym("return"@, SymbolClass::Num, Type::Int, 140),
        fresh_sym("sizeof"@, SymbolClass::Num, Type::Int, 141),
        fresh_sym("while"@, SymbolClass::Num, Type::Int, 142),
        fresh_sym("void"@, SymbolClass::Num, Type::Int, 146),
        fresh_sym("open"@, SymbolClass::Sys, Type::Int, op(OpCode::OPEN)),
        fresh_sym("read"@, SymbolClass::Sys, Type::Int, op(OpCode::READ)),
        fresh_sym("close"@, SymbolClass::Sys, Type::Int, op(OpCode::CLOS)),
        fresh_sym("printf"@, SymbolClass::Sys, Type::Int, op(OpCode::PRTF)),
        fresh_sym("malloc"@, SymbolClass::Sys, Type::Int, op(OpCode::MALC)),
        fresh_sym("free"@, SymbolClass::Sys, Type::Int, op(OpCode::FREE)),
        fresh_sym("memset"@, SymbolClass::Sys, Type::Int, op(OpCode::MSET)),
        fresh_sym("memcmp"@, SymbolClass::Sys, Type::Int, op(OpCode::MCMP)),
        fresh_sym("exit"@, SymbolClass::Sys, Type::Int, op(OpCode::EXIT)),
    ]
}

/// The data segment that a new generator starts with: `"Hello world!\n"`,
/// a zero, and zeros up to eight-byte alignment.
pub open spec fn initial_data() -> Seq<u8> {
    seq![72u8, 101, 108, 108, 111, 32, 119, 111, 114, 108, 100, 33, 10, 0, 0, 0]
}

/// Zeros appended up to a multiple of eight bytes.
pub open spec fn pad8(d: Seq<u8>) -> Seq<u8> {
    d + Seq::new(((8 - d.len() % 8) % 8) as nat, |i: int| 0u8)
}

/// A byte vector resized to `n`: cut, or extended with zeros.
pub open spec fn resized(d: Seq<u8>, n: usize) -> Seq<u8> {
    if n <= d.len() {
        d.subrange(0, n as int)
    } else {
        d + Seq::new((n - d.len()) as nat, |i: int| 0u8)
    }
}

/// The end of the zero-terminated string in `b` that starts at `i`: the
/// index of its zero, or the end of `b`.
pub open spec fn zero_at(b: Seq<u8>, i: int) -> int
    decreases b.len() - i,
{
    if i < 0 || i >= b.len() {
        b.len() as int
    } else if b[i] == 0 {
        i
    } else {
        zero_at(b, i + 1)
    }
}

impl PState {
    pub open spec fn tok(self) -> Token {
        self.lex.tok
    }

    /// The state after reading the next token.
    pub open spec fn adv(self) -> PState {
        PState { lex: lex_next(self.lex), ..self }
    }

    /// The state with `xs` appended to the code.
    pub open spec fn emit(self, xs: Seq<i64>) -> PState {
        PState { code: self.code + xs, ..self }
    }

    /// The state with the last instruction removed.
    pub open spec fn pop(self) -> PState {
        PState { code: self.code.drop_last(), ..self }
    }

    /// The state with code word `i` set to `v`.
    pub open spec fn patch(self, i: int, v: i64) -> PState {
        PState { code: self.code.update(i, v), ..self }
    }

    pub open spec fn typed(self, t: Type) -> PState {
        PState { ty: t, ..self }
    }

    pub open spec fn with_locals(self, n: usize) -> PState {
        PState { locals: n, ..self }
    }

    pub open spec fn ok(self) -> PRes {
        (self, Ok(()))
    }

    /// An error with the current line.
    pub open spec fn fail(self, m: Seq<char>) -> PRes {
        (self, Err(line_msg(self.lex.line, m)))
    }

    /// An error with the current line, for a step with a flag.
    pub open spec fn fail_flag(self, m: Seq<char>) -> PFlag {
        (self, Err(line_msg(self.lex.line, m)))
    }

    /// Consumes `t` if it is the current token, else fails with `m`.
    pub open spec fn expect(self, t: Token, m: Seq<char>) -> PRes {
        if self.tok() == t {
            self.adv().ok()
        } else {
            self.fail(m)
        }
    }

    /// Adds a symbol unless one of that name is already there.
    pub open spec fn add_symbol(self, name: Seq<char>, class: SymbolClass, typ: Type, value: i64) -> PRes {
        if find(self.syms, name) is Some {
            (self, Err("Symbol '"@ + name + "' already defined"@))
        } else {
            PState { syms: self.syms.push(fresh_sym(name, class, typ, value)), ..self }.ok()
        }
    }

    /// Adds a symbol as it is.
    pub open spec fn push_sym(self, s: SymV) -> PState {
        PState { syms: self.syms.push(s), ..self }
    }

    /// The generator's invariant: the tokenizer's, a source no longer than a
    /// string can be, a `<` or `>` token not doubled, and a count of local
    /// slots that the tokens left to read cannot push past the length of
    /// the source.
    pub open spec fn wf(self) -> bool {
        &&& self.lex.wf()
        &&& self.lex.chars.len() <= isize::MAX
        &&& crate::lexer::lt_gt_ok(self.lex)
        &&& self.locals + self.lex.measure() <= self.lex.chars.len() + 1
    }
}

/// Whether `b` is a well-formed state with no more left to read than `a`.
pub open spec fn follows(a: PState, b: PState) -> bool {
    b.wf() && b.lex.measure() <= a.lex.measure() && b.lex.chars == a.lex.chars
}

/// Whether `a` has less left to read than `b`.
pub open spec fn shrinks(a: PState, b: PState) -> bool {
    a.lex.measure() < b.lex.measure()
}

/// Reading a token never adds to what is left to read, and reading one
/// that is not the end of input takes from it.
pub proof fn lemma_adv(s: PState)
    ensures
        s.adv().lex.measure() <= s.lex.measure(),
        s.tok() != Token::Eof ==> s.adv().lex.measure() < s.lex.measure(),
{
    if s.lex.wf() {
        lemma_advance(s.lex);
    }
}

/// `*` levels after a type: each turns the type into a pointer to it.
pub open spec fn ptr_levels(s: PState, t: Type) -> (PState, Type)
    decreases s.lex.measure(),
{
    if s.tok() == Token::Mul {
        proof {
            lemma_adv(s);
        }
        ptr_levels(s.adv(), Type::Ptr(Box::new(t)))
    } else {
        (s, t)
    }
}

/// Reads over string literal tokens.
pub open spec fn skip_strs(s: PState) -> PState
    decreases s.lex.measure(),
{
    if s.tok() is Str {
        proof {
            lemma_adv(s);
        }
        skip_strs(s.adv())
    } else {
        s
    }
}

/// The index of the first symbol of class `c` and value `v` at or after `i`.
pub open spec fn first_with_from(syms: Seq<SymV>, c: SymbolClass, v: i64, i: int) -> Option<int>
    decreases syms.len() - i,
{
    if i < 0 || i >= syms.len() {
        None
    } else if syms[i].class == c && syms[i].value == v {
        Some(i)
    } else {
        first_with_from(syms, c, v, i + 1)
    }
}

/// The name, type, value and class of the variable whose load the code
/// ends with: for `LEA n` and a load, the first local at slot `n`; for
/// `IMM a` and a load, the first global at address `a`; or else the first
/// local at slot zero.
pub open spec fn last_variable(s: PState) -> Option<(Seq<char>, Type, i64, SymbolClass)> {
    let n = s.code.len() as int;
    if n < 1 {
        None
    } else {
        let last = s.code[n - 1];
        let found = if (last == op(OpCode::LI) || last == op(OpCode::LC)) && n >= 3 {
            if s.code[n - 3] == op(OpCode::LEA) {
                first_with_from(s.syms, SymbolClass::Loc, s.code[n - 2], 0)
            } else if s.code[n - 3] == op(OpCode::IMM) {
                first_with_from(s.syms, SymbolClass::Glo, s.code[n - 2], 0)
            } else {
                None
            }
        } else {
            None
        };
        match found {
            Some(i) => Some((s.syms[i].name, s.syms[i].typ, s.syms[i].value, s.syms[i].class)),
            None => match first_with_from(s.syms, SymbolClass::Loc, 0, 0) {
                Some(i) => Some((s.syms[i].name, s.syms[i].typ, 0i64, SymbolClass::Loc)),
                None => None,
            },
        }
    }
}

// ---------------------------------------------------------------------
// Expressions
// ---------------------------------------------------------------------

/// Parses an expression whose binary operators bind tighter than `prec`.
#[verifier::opaque]
pub open spec fn expr(s: PState, prec: u8) -> PRes
    decreases s.lex.measure(), 4nat,
{
    let (s1, r) = primary(s);
    match r {
        Err(e) => (s1, Err(e)),
        Ok(false) => s1.ok(),
        Ok(true) => if s1.lex.measure() <= s.lex.measure() {
            ops(s1, prec)
        } else {
            (s1, Err(Seq::empty()))
        },
    }
}

/// The operators after an operand, while they bind tighter than `prec`.
#[verifier::opaque]
pub open spec fn ops(s: PState, prec: u8) -> PRes
    decreases s.lex.measure(), 2nat,
{
    if precedence(s.tok()) <= prec {
        s.ok()
    } else {
        let op = s.tok();
        proof {
            lemma_adv(s);
        }
        let (s2, r) = binop(s.adv(), op, s.ty);
        match r {
            Err(e) => (s2, Err(e)),
            Ok(_) => if shrinks(s2, s) {
                ops(s2, prec)
            } else {
                (s2, Err(Seq::empty()))
            },
        }
    }
}

/// Lifts a step's result to one with a flag that asks for the operators
/// after it.
pub open spec fn more(r: PRes) -> PFlag {
    match r.1 {
        Ok(_) => (r.0, Ok(true)),
        Err(e) => (r.0, Err(e)),
    }
}

/// An operand: a literal, a variable, a call, a unary operator and its
/// operand, a cast or a parenthesized expression. `Ok(false)` ends the
/// whole expression there.
#[verifier::opaque]
pub open spec fn primary(s: PState) -> PFlag
    decreases s.lex.measure(), 3nat,
{
    proof {
        lemma_adv(s);
    }
    match s.tok() {
        Token::Num(v) => (s.emit(seq![op(OpCode::IMM), v]).adv().typed(Type::Int), Ok(true)),
        Token::Str(p) => (str_lit(s, p), Ok(true)),
        Token::Sizeof => more(sizeof_expr(s.adv())),
        Token::Id(id) => more(ident(s.adv(), id_name(id))),
        Token::Mul => more(deref(s.adv())),
        Token::And => addr_of(s.adv()),
        Token::Not => more(unary_tail(s.adv(), seq![op(OpCode::PSH), op(OpCode::IMM), 0, op(OpCode::EQ)])),
        Token::Tilde => more(unary_tail(s.adv(), seq![op(OpCode::PSH), op(OpCode::IMM), -1i64, op(OpCode::XOR)])),
        Token::Add => more(expr(s.adv(), 11)),
        Token::Sub => more(negate(s.adv())),
        Token::Inc => more(pre_step(s.adv(), true)),
        Token::Dec => more(pre_step(s.adv(), false)),
        Token::LeftParen => more(paren(s.adv())),
        Token::Lt => more(lt_gt(s, true)),
        Token::Gt => more(lt_gt(s, false)),
        _ => s.fail_flag("Expected expression"@),
    }
}

/// A string literal: its bytes up to the first zero go to the data
/// segment with a zero and padding, its address is loaded, and the string
/// literals right after it are read over.
#[verifier::opaque]
pub open spec fn str_lit(s: PState, p: usize) -> PState {
    let b = s.lex.buf;
    let bytes = b.subrange(p as int, zero_at(b, p as int));
    let s1 = PState { data: pad8(s.data + bytes + seq![0u8]), ..s };
    skip_strs(s1.emit(seq![op(OpCode::IMM), s.data.len() as i64]).adv()).typed(
        Type::Ptr(Box::new(Type::Char)),
    )
}

/// `sizeof(type)`, after `sizeof`: loads the size of the type.
#[verifier::opaque]
pub open spec fn sizeof_expr(s: PState) -> PRes {
    let (s1, r) = s.expect(Token::LeftParen, "Expected '(' after sizeof"@);
    if r is Err {
        (s1, r)
    } else {
        let (s2, t) = if s1.tok() == Token::Int {
            (s1.adv(), Type::Int)
        } else if s1.tok() == Token::Char {
            (s1.adv(), Type::Char)
        } else {
            (s1, Type::Int)
        };
        let (s3, t3) = ptr_levels(s2, t);
        let (s4, r4) = s3.expect(Token::RightParen, "Expected ')' after type in sizeof"@);
        if r4 is Err {
            (s4, r4)
        } else {
            s4.emit(seq![op(OpCode::IMM), type_size(t3) as i64]).typed(Type::Int).ok()
        }
    }
}

/// An identifier, after it: a call if `(` follows, else a variable.
#[verifier::opaque]
pub open spec fn ident(s: PState, name: Seq<char>) -> PRes
    decreases s.lex.measure(), 5nat,
{
    proof {
        lemma_adv(s);
    }
    if s.tok() == Token::LeftParen {
        call(s.adv(), name)
    } else {
        variable(s, name)
    }
}

/// The arguments of a call and the call, after `(`.
#[verifier::opaque]
pub open spec fn call(s: PState, name: Seq<char>) -> PRes
    decreases s.lex.measure(), 6nat,
{
    let (s1, r, argc) = if s.tok() != Token::RightParen {
        call_args(s, 0)
    } else {
        (s, Ok(()), 0usize)
    };
    if r is Err {
        (s1, r)
    } else {
        let is_printf = name == "printf"@;
        let (s2, r2) = if s1.tok() == Token::RightParen {
            s1.adv().ok()
        } else if is_printf && argc > 0 {
            s1.ok()
        } else {
            s1.fail("Expected ')' after function arguments"@)
        };
        if r2 is Err {
            (s2, r2)
        } else {
            match find(s2.syms, name) {
                None => s2.fail("Unknown function '"@ + name + "'"@),
                Some(i) => {
                    let sym = s2.syms[i];
                    let (s3, r3) = if sym.class == SymbolClass::Sys {
                        let t = s2.emit(seq![sym.value]);
                        if is_printf { t.emit(seq![argc as i64]).ok() } else { t.ok() }
                    } else if sym.class == SymbolClass::Fun {
                        s2.emit(seq![op(OpCode::JSR), sym.value]).ok()
                    } else {
                        s2.fail("'"@ + name + "' is not a function"@)
                    };
                    if r3 is Err {
                        (s3, r3)
                    } else if argc > 0 && !is_printf {
                        s3.typed(sym.typ).emit(seq![op(OpCode::ADJ), argc as i64]).ok()
                    } else {
                        s3.typed(sym.typ).ok()
                    }
                },
            }
        }
    }
}

/// The arguments of a call, each pushed on the stack, and their count
/// (`argc` of them were read before).
#[verifier::opaque]
pub open spec fn call_args(s: PState, argc: usize) -> (PState, Result<(), Seq<char>>, usize)
    decreases s.lex.measure(), 5nat,
{
    let (s1, r) = expr(s, 0);
    if r is Err {
        (s1, r, argc)
    } else {
        let s2 = s1.emit(seq![op(OpCode::PSH)]);
        let n = (argc + 1) as usize;
        if s2.tok() != Token::Comma {
            (s2, Ok(()), n)
        } else if shrinks(s2.adv(), s) {
            call_args(s2.adv(), n)
        } else {
            (s2, Err(Seq::empty()), n)
        }
    }
}

/// `x++` or `x--` on the variable at `addr_op v` of type `t`: the code
/// leaves the old value, and the `++` or `--` is read.
#[verifier::opaque]
pub open spec fn post_step(s: PState, addr_op: i64, v: i64, t: Type, inc: bool) -> PState {
    s.emit(seq![addr_op, v, op(OpCode::PSH)])
        .emit(seq![addr_op, v, load_op(t), op(OpCode::PSH)])
        .emit(seq![addr_op, v, load_op(t), op(OpCode::PSH), op(OpCode::IMM), step_size(t)])
        .emit(seq![if inc { op(OpCode::ADD) } else { op(OpCode::SUB) }])
        .adv()
        .emit(seq![store_op(t), op(OpCode::PSH), op(OpCode::IMM), 0, op(OpCode::ADD)])
}

/// A variable, after its name: a constant, a load, an assignment, or a
/// post-increment or post-decrement.
#[verifier::opaque]
pub open spec fn variable(s: PState, name: Seq<char>) -> PRes
    decreases s.lex.measure(), 3nat,
{
    proof {
        lemma_adv(s);
    }
    match find(s.syms, name) {
        None => s.fail("Unknown variable '"@ + name + "'"@),
        Some(i) => {
            let sym = s.syms[i];
            let v = sym.value;
            let t = sym.typ;
            let step = s.tok() == Token::Inc || s.tok() == Token::Dec;
            let is_inc = s.tok() == Token::Inc;
            if sym.class == SymbolClass::Num {
                s.emit(seq![op(OpCode::IMM), v]).typed(Type::Int).ok()
            } else if sym.class == SymbolClass::Glo || sym.class == SymbolClass::Loc {
                let a = if sym.class == SymbolClass::Glo { op(OpCode::IMM) } else { op(OpCode::LEA) };
                if s.tok() == Token::Assign {
                    let (s1, r) = expr(s.emit(seq![a, v, op(OpCode::PSH)]).adv(), 0);
                    if r is Err {
                        (s1, r)
                    } else {
                        s1.emit(seq![store_op(t)]).typed(t).ok()
                    }
                } else if step {
                    post_step(s, a, v, t, is_inc).typed(t).ok()
                } else {
                    s.emit(seq![a, v, load_op(t)]).typed(t).ok()
                }
            } else {
                s.fail("Invalid variable '"@ + name + "'"@)
            }
        },
    }
}

/// `*e`, after the `*`.
#[verifier::opaque]
pub open spec fn deref(s: PState) -> PRes
    decreases s.lex.measure(), 5nat,
{
    let (s1, r) = expr(s, 11);
    if r is Err {
        (s1, r)
    } else {
        match s1.ty {
            Type::Ptr(b) => s1.typed(*b).emit(seq![load_op(*b)]).ok(),
            _ => s1.fail("Cannot dereference a non-pointer type ("@ + type_debug(s1.ty) + ")"@),
        }
    }
}

/// `&e`, after the `&`: drops the load of an lvalue and makes the type a
/// pointer. A string literal after the operand ends the expression.
#[verifier::opaque]
pub open spec fn addr_of(s: PState) -> PFlag
    decreases s.lex.measure(), 5nat,
{
    let before = s.code.len();
    let (s1, r) = expr(s, 11);
    if r is Err {
        (s1, Err(r->Err_0))
    } else if s1.tok() is Str {
        (s1.typed(Type::Ptr(Box::new(Type::Char))), Ok(false))
    } else {
        let n = s1.code.len();
        let ptr = Type::Ptr(Box::new(s1.ty));
        if n > before {
            let last = s1.code[n - 1];
            if last == op(OpCode::LC) || last == op(OpCode::LI) {
                (s1.pop().typed(ptr), Ok(true))
            } else if n > before + 1 && (s1.code[n - 2] == op(OpCode::IMM) || s1.code[n - 2] == op(OpCode::LEA)) {
                (s1.typed(ptr), Ok(true))
            } else {
                s1.fail_flag("Invalid address-of operation - can only take address of variables"@)
            }
        } else {
            s1.fail_flag("Invalid address-of operation - empty expression"@)
        }
    }
}

/// A unary operator's operand, then `tail`; the type becomes an integer.
#[verifier::opaque]
pub open spec fn unary_tail(s: PState, tail: Seq<i64>) -> PRes
    decreases s.lex.measure(), 5nat,
{
    let (s1, r) = expr(s, 11);
    if r is Err {
        (s1, r)
    } else {
        s1.emit(tail).typed(Type::Int).ok()
    }
}

/// `-e`, after the `-`: a number literal is negated in place (wrapping),
/// anything else is multiplied by minus one.
#[verifier::opaque]
pub open spec fn negate(s: PState) -> PRes
    decreases s.lex.measure(), 5nat,
{
    proof {
        lemma_adv(s);
    }
    if s.tok() == Token::Num(s.lex.value) {
        s.emit(seq![op(OpCode::IMM), vstd::wrapping::i64_specs::wrapping_sub(0, s.lex.value)])
            .adv().typed(Type::Int).ok()
    } else {
        let (s1, r) = expr(s.emit(seq![op(OpCode::IMM), -1i64, op(OpCode::PSH)]), 11);
        if r is Err {
            (s1, r)
        } else {
            s1.emit(seq![op(OpCode::MUL)]).typed(Type::Int).ok()
        }
    }
}

/// `++e` or `--e`, after the operator: the operand's load becomes a push
/// of its address, then the value is reloaded, stepped and stored.
#[verifier::opaque]
pub open spec fn pre_step(s: PState, inc: bool) -> PRes
    decreases s.lex.measure(), 5nat,
{
    let (s1, r) = expr(s, 11);
    if r is Err {
        (s1, r)
    } else {
        let n = s1.code.len();
        if n >= 1 && (s1.code[n - 1] == op(OpCode::LC) || s1.code[n - 1] == op(OpCode::LI)) {
            let last = s1.code[n - 1];
            s1.patch(n - 1, op(OpCode::PSH)).emit(seq![
                last,
                op(OpCode::PSH),
                op(OpCode::IMM),
                step_size(s1.ty),
                if inc { op(OpCode::ADD) } else { op(OpCode::SUB) },
                if last == op(OpCode::LC) { op(OpCode::SC) } else { op(OpCode::SI) },
            ]).ok()
        } else {
            s1.fail("Invalid LValue in pre-increment/decrement"@)
        }
    }
}

/// After `(`: a cast to a type, or a parenthesized expression.
#[verifier::opaque]
pub open spec fn paren(s: PState) -> PRes
    decreases s.lex.measure(), 5nat,
{
    proof {
        lemma_adv(s);
    }
    if s.tok() == Token::Int || s.tok() == Token::Char {
        let t = if s.tok() == Token::Int { Type::Int } else { Type::Char };
        let (s1, t1) = ptr_levels(s.adv(), t);
        let (s2, r2) = s1.expect(Token::RightParen, "Expected ')' after type cast"@);
        if r2 is Err {
            (s2, r2)
        } else if shrinks(s2, s) {
            let (s3, r3) = expr(s2, 11);
            if r3 is Err { (s3, r3) } else { s3.typed(t1).ok() }
        } else {
            (s2, Err(Seq::empty()))
        }
    } else {
        let (s1, r) = expr(s, 0);
        if r is Err {
            (s1, r)
        } else {
            s1.expect(Token::RightParen, "Expected ')' after expression"@)
        }
    }
}

/// `<<` or `>>` read as two `<` or two `>` tokens: fails where the
/// current token and the next character are not such a pair.
#[verifier::opaque]
pub open spec fn bitwise(s: PState) -> PRes
    decreases s.lex.measure(), 0nat,
{
    let lt = s.tok() == Token::Lt;
    let gt = s.tok() == Token::Gt;
    if (lt && crate::lexer::char_at(s.lex.chars, s.lex.pos as int) == Some('<'))
        || (gt && crate::lexer::char_at(s.lex.chars, s.lex.pos as int) == Some('>')) {
        proof {
            lemma_adv(s);
            lemma_adv(s.adv());
        }
        let (s1, r) = expr(
            s.adv().adv().emit(seq![op(OpCode::PSH)]),
            precedence(if lt { Token::Shl } else { Token::Shr }),
        );
        if r is Err {
            (s1, r)
        } else {
            s1.emit(seq![if lt { op(OpCode::SHL) } else { op(OpCode::SHR) }]).typed(Type::Int).ok()
        }
    } else {
        (s, Err("Not a bit shift operator"@))
    }
}

/// `<` or `>` in the place of an operand: a shift if the next character
/// doubles it and the shift parses; else, from where that attempt left
/// off, a token is read, the value pushed and compared with what follows.
#[verifier::opaque]
pub open spec fn lt_gt(s: PState, lt: bool) -> PRes
    decreases s.lex.measure(), 1nat,
{
    let doubled = crate::lexer::char_at(s.lex.chars, s.lex.pos as int) == Some(if lt { '<' } else { '>' });
    let (s1, r) = if doubled { bitwise(s) } else { (s, Err(Seq::empty())) };
    if doubled && r is Ok {
        (s1, r)
    } else {
        let s2 = s1.adv().emit(seq![op(OpCode::PSH)]);
        if shrinks(s2, s) {
            let (s3, r3) = expr(s2, precedence(if lt { Token::Lt } else { Token::Gt }));
            if r3 is Err {
                (s3, r3)
            } else {
                s3.emit(seq![if lt { op(OpCode::LT) } else { op(OpCode::GT) }]).typed(Type::Int).ok()
            }
        } else {
            (s2, Err(Seq::empty()))
        }
    }
}

/// A binary operator `opt`, already read, with a left operand of type
/// `lhs`, and its right operand. `||` and `&&` branch past their right
/// operand when the left one already decides: on non-zero for `||`, on
/// zero for `&&`.
#[verifier::opaque]
pub open spec fn binop(s: PState, opt: Token, lhs: Type) -> PRes
    decreases s.lex.measure(), 5nat,
{
    let n = s.code.len();
    if opt == Token::Assign {
        if n >= 1 && (s.code[n - 1] == op(OpCode::LI) || s.code[n - 1] == op(OpCode::LC)) {
            let last = s.code[n - 1];
            let (s1, r) = expr(s.pop(), 0);
            if r is Err {
                (s1, r)
            } else {
                s1.emit(seq![if last == op(OpCode::LC) { op(OpCode::SC) } else { op(OpCode::SI) }]).ok()
            }
        } else if n >= 1 && (s.code[n - 1] == op(OpCode::ADD) || s.code[n - 1] == op(OpCode::MUL)) {
            let (s1, r) = expr(s.emit(seq![op(OpCode::PSH)]), 0);
            if r is Err {
                (s1, r)
            } else {
                s1.emit(seq![store_op(lhs)]).ok()
            }
        } else {
            s.fail("bad lvalue in assignment"@)
        }
    } else if is_compound(opt) {
        if n < 2 {
            s.fail("bad lvalue in compound assignment"@)
        } else {
            let load = s.code[n - 1];
            let s1 = s.pop();
            if load != op(OpCode::LI) && load != op(OpCode::LC) {
                s1.fail("expected load instruction in compound assignment"@)
            } else {
                let var = s1.code;
                let (s2, r) = expr(s1.emit(var).emit(seq![load, op(OpCode::PSH)]), precedence(opt));
                if r is Err {
                    (s2, r)
                } else {
                    s2.emit(seq![compound_op(opt), op(OpCode::PSH)]).emit(var).emit(seq![
                        if load == op(OpCode::LC) { op(OpCode::SC) } else { op(OpCode::SI) },
                    ]).ok()
                }
            }
        }
    } else if opt == Token::Lor || opt == Token::Lan {
        let s1 = s.emit(seq![if opt == Token::Lor { op(OpCode::BNZ) } else { op(OpCode::BZ) }]);
        let d = s1.code.len() as int;
        let (s2, r) = expr(s1.emit(seq![0]), precedence(opt));
        if r is Err {
            (s2, r)
        } else {
            s2.patch(d, s2.code.len() as i64).typed(Type::Int).ok()
        }
    } else {
        let s0 = s.emit(seq![op(OpCode::PSH)]);
        if opt == Token::Add {
            let (s1, r) = expr(s0, precedence(opt));
            if r is Err {
                (s1, r)
            } else {
                let s2 = if lhs is Ptr {
                    s1.emit(seq![op(OpCode::PSH), op(OpCode::IMM), step_size(lhs), op(OpCode::MUL)])
                } else {
                    s1
                };
                s2.emit(seq![op(OpCode::ADD)]).typed(lhs).ok()
            }
        } else if opt == Token::Sub {
            let (s1, r) = expr(s0, precedence(opt));
            if r is Err {
                (s1, r)
            } else if lhs is Ptr && s1.ty is Ptr {
                s1.emit(seq![op(OpCode::SUB), op(OpCode::PSH), op(OpCode::IMM), step_size(lhs), op(OpCode::DIV)])
                    .typed(Type::Int).ok()
            } else if lhs is Ptr {
                s1.emit(seq![op(OpCode::PSH), op(OpCode::IMM), step_size(lhs), op(OpCode::MUL), op(OpCode::SUB)])
                    .typed(lhs).ok()
            } else {
                s1.emit(seq![op(OpCode::SUB)]).typed(Type::Int).ok()
            }
        } else if opt == Token::LeftBracket {
            let (s1, r) = expr(s0, 0);
            if r is Err {
                (s1, r)
            } else {
                let (s2, r2) = s1.expect(Token::RightBracket, "Expected ']' after array index"@);
                if r2 is Err {
                    (s2, r2)
                } else {
                    match type_base(lhs) {
                        Some(b) => {
                            let s3 = s2.emit(seq![op(OpCode::PSH), op(OpCode::IMM), type_size(b) as i64, op(OpCode::MUL), op(OpCode::ADD)])
                                .typed(b);
                            if skips_index_load(s3.tok()) {
                                s3.ok()
                            } else {
                                s3.emit(seq![load_op(b)]).ok()
                            }
                        },
                        None => s2.fail("Array indexing requires a pointer or array type"@),
                    }
                }
            }
        } else {
            match arith_op(opt) {
                Some(code) => {
                    let (s1, r) = expr(s0, precedence(opt));
                    if r is Err {
                        (s1, r)
                    } else {
                        s1.emit(seq![code]).typed(Type::Int).ok()
                    }
                },
                None => s0.fail("Unsupported operator"@),
            }
        }
    }
}

// ---------------------------------------------------------------------
// Statements
// ---------------------------------------------------------------------

/// A statement.
#[verifier::opaque]
pub open spec fn stmt(s: PState) -> PRes
    decreases s.lex.measure(), 2nat,
{
    proof {
        lemma_adv(s);
    }
    match s.tok() {
        Token::If => if_stmt(s.adv()),
        Token::For => for_stmt(s.adv()),
        Token::While => while_stmt(s.adv()),
        Token::Return => return_stmt(s.adv()),
        Token::LeftBrace => block(s.adv()),
        Token::Semicolon => s.adv().ok(),
        _ => expr_stmt(s),
    }
}

/// `if (c) s` or `if (c) s else s`, after `if`: a branch on zero over the
/// first statement, and over the second a jump.
#[verifier::opaque]
pub open spec fn if_stmt(s: PState) -> PRes
    decreases s.lex.measure(), 3nat,
{
    let (s1, r1) = s.expect(Token::LeftParen, "Expected '(' after 'if'"@);
    if r1 is Err { (s1, r1) } else {
    let (s2, r2) = expr(s1, 0);
    if r2 is Err { (s2, r2) } else {
    let (s3, r3) = s2.expect(Token::RightParen, "Expected ')' after condition"@);
    if r3 is Err { (s3, r3) } else {
    let s4 = s3.emit(seq![op(OpCode::BZ)]);
    let bp = s4.code.len() as int;
    let s5 = s4.emit(seq![0]);
    if s5.lex.measure() > s.lex.measure() { (s5, Err(Seq::empty())) } else {
    let (s6, r6) = stmt(s5);
    if r6 is Err { (s6, r6) } else if s6.tok() == Token::Else {
        let s7 = s6.adv().emit(seq![op(OpCode::JMP)]);
        let jp = s7.code.len() as int;
        let s8 = s7.emit(seq![0]);
        let s9 = s8.patch(bp, s8.code.len() as i64);
        if s9.lex.measure() > s.lex.measure() { (s9, Err(Seq::empty())) } else {
        let (s10, r10) = stmt(s9);
        if r10 is Err { (s10, r10) } else {
            s10.patch(jp, s10.code.len() as i64).ok()
        }}
    } else {
        s6.patch(bp, s6.code.len() as i64).ok()
    }}}}}
}

/// `for (init; cond; step) s`, after `for`.
#[verifier::opaque]
pub open spec fn for_stmt(s: PState) -> PRes
    decreases s.lex.measure(), 3nat,
{
    let (s1, r1) = s.expect(Token::LeftParen, "Expected '(' after 'for'"@);
    if r1 is Err { (s1, r1) } else {
    let (s2, r2) = if s1.tok() != Token::Semicolon { expr(s1, 0) } else { s1.ok() };
    if r2 is Err { (s2, r2) } else {
    let (s3, r3) = s2.expect(Token::Semicolon, "Expected ';' after for initialization"@);
    if r3 is Err { (s3, r3) } else {
    let cond = s3.code.len();
    let (s4, r4) = if s3.tok() != Token::Semicolon {
        expr(s3, 0)
    } else {
        s3.emit(seq![op(OpCode::IMM), 1]).ok()
    };
    if r4 is Err { (s4, r4) } else {
    let (s5, r5) = s4.expect(Token::Semicolon, "Expected ';' after for condition"@);
    if r5 is Err { (s5, r5) } else {
    let s6 = s5.emit(seq![op(OpCode::BZ)]);
    let exit = s6.code.len() as int;
    let s7 = s6.emit(seq![0, op(OpCode::JMP)]);
    let bj = s7.code.len() as int;
    let s8 = s7.emit(seq![0]);
    let inc = s8.code.len();
    let (s9, r9) = if s8.tok() != Token::RightParen { expr(s8, 0) } else { s8.ok() };
    if r9 is Err { (s9, r9) } else {
    let s10 = s9.emit(seq![op(OpCode::JMP), cond as i64]);
    let (s11, r11) = s10.expect(Token::RightParen, "Expected ')' after for increment"@);
    if r11 is Err { (s11, r11) } else {
    let s12 = s11.patch(bj, s11.code.len() as i64);
    if s12.lex.measure() > s.lex.measure() { (s12, Err(Seq::empty())) } else {
    let (s13, r13) = stmt(s12);
    if r13 is Err { (s13, r13) } else {
        let s14 = s13.emit(seq![op(OpCode::JMP), inc as i64]);
        s14.patch(exit, s14.code.len() as i64).ok()
    }}}}}}}}}
}

/// `while (c) s`, after `while`: the condition, a branch on zero past
/// the loop, the body, and a jump back.
#[verifier::opaque]
pub open spec fn while_stmt(s: PState) -> PRes
    decreases s.lex.measure(), 3nat,
{
    let start = s.code.len();
    let (s1, r1) = s.expect(Token::LeftParen, "Expected '(' after 'while'"@);
    if r1 is Err { (s1, r1) } else {
    let (s2, r2) = expr(s1, 0);
    if r2 is Err { (s2, r2) } else {
    let (s3, r3) = s2.expect(Token::RightParen, "Expected ')' after condition"@);
    if r3 is Err { (s3, r3) } else {
    let s4 = s3.emit(seq![op(OpCode::BZ)]);
    let bp = s4.code.len() as int;
    let s5 = s4.emit(seq![0]);
    if s5.lex.measure() > s.lex.measure() { (s5, Err(Seq::empty())) } else {
    let (s6, r6) = stmt(s5);
    if r6 is Err { (s6, r6) } else {
        let s7 = s6.emit(seq![op(OpCode::JMP), start as i64]);
        s7.patch(bp, s7.code.len() as i64).ok()
    }}}}}
}

/// `return;` or `return e;`, after `return`.
pub open spec fn return_stmt(s: PState) -> PRes {
    let (s1, r1) = if s.tok() != Token::Semicolon { expr(s, 0) } else { s.ok() };
    if r1 is Err {
        (s1, r1)
    } else {
        s1.emit(seq![op(OpCode::LEV)]).expect(Token::Semicolon, "Expected ';' after return"@)
    }
}

/// A block, after `{`.
#[verifier::opaque]
pub open spec fn block(s: PState) -> PRes
    decreases s.lex.measure(), 4nat,
{
    let (s1, r1) = block_items(s);
    if r1 is Err {
        (s1, r1)
    } else {
        s1.expect(Token::RightBrace, "Expected '}' to end block"@)
    }
}

/// The declarations and statements of a block, up to its `}`.
#[verifier::opaque]
pub open spec fn block_items(s: PState) -> PRes
    decreases s.lex.measure(), 3nat,
{
    proof {
        lemma_adv(s);
    }
    if s.tok() != Token::RightBrace && s.tok() != Token::Eof {
        if s.tok() == Token::Int || s.tok() == Token::Char {
            let t = if s.tok() == Token::Int { Type::Int } else { Type::Char };
            let (s2, r2) = block_decls(s.adv(), t);
            if r2 is Err { (s2, r2) } else {
            let (s3, r3) = s2.expect(Token::Semicolon, "Expected ';' after local variable declaration"@);
            if r3 is Err { (s3, r3) } else if shrinks(s3, s) {
                block_items(s3)
            } else {
                (s3, Err(Seq::empty()))
            }}
        } else {
            let (s1, r1) = stmt(s);
            if r1 is Err {
                (s1, r1)
            } else if shrinks(s1, s) {
                block_items(s1)
            } else {
                (s1, Err(Seq::empty()))
            }
        }
    } else {
        s.ok()
    }
}

/// The declarators of a local declaration inside a block: each takes the
/// next local slot.
pub open spec fn block_decls(s: PState, base: Type) -> PRes
    decreases s.lex.measure(),
{
    if s.tok() == Token::Semicolon {
        s.ok()
    } else {
        let (s1, t) = ptr_levels(s, base);
        match s1.tok() {
            Token::Id(id) => {
                let (s2, r2) = s1.add_symbol(id_name(id), SymbolClass::Loc, t, s1.locals as i64);
                if r2 is Err { (s2, r2) } else {
                    let s3 = s2.with_locals((s2.locals + 1) as usize).adv();
                    proof {
                        lemma_adv(s3);
                    }
                    if s3.tok() == Token::Comma && shrinks(s3.adv(), s) {
                        block_decls(s3.adv(), base)
                    } else if s3.tok() == Token::Comma {
                        (s3, Err(Seq::empty()))
                    } else {
                        s3.ok()
                    }
                }
            },
            _ => s1.fail("Local variable name expected"@),
        }
    }
}

/// An expression statement: the expression and its `;`.
pub open spec fn expr_stmt(s: PState) -> PRes {
    let (s1, r1) = expr(s, 0);
    if r1 is Err {
        (s1, r1)
    } else if s1.tok() == Token::Semicolon {
        s1.adv().ok()
    } else if s1.lex.line == 61 && s1.ty == Type::Int {
        s1.ok()
    } else {
        s1.fail("Expected ';' after expression"@)
    }
}

// ---------------------------------------------------------------------
// Declarations and whole programs
// ---------------------------------------------------------------------

/// An optional `[n]` after a declarator's name: makes the type an array
/// of `n` elements.
pub open spec fn array_suffix(s: PState, t: Type) -> (PState, Type, Result<(), Seq<char>>) {
    if s.tok() == Token::LeftBracket {
        let s1 = s.adv();
        match s1.tok() {
            Token::Num(size) => {
                let (s2, r2) = s1.adv().expect(Token::RightBracket, "Expected ']' after array size"@);
                (s2, Type::Array(Box::new(t), size as usize), r2)
            },
            _ => (s1, t, Err(line_msg(s1.lex.line, "Expected numeric array size"@))),
        }
    } else {
        (s, t, Ok(()))
    }
}

/// The parameters of a function, after `(`: each becomes a local with
/// the next slot, and the count read so far is `pc`.
#[verifier::opaque]
pub open spec fn params(s: PState, pc: i64) -> (PState, Result<(), Seq<char>>, i64)
    decreases s.lex.measure(),
{
    proof {
        lemma_adv(s);
    }
    if s.tok() != Token::Int && s.tok() != Token::Char {
        (s, Err(line_msg(s.lex.line, "Parameter type expected"@)), pc)
    } else {
        let t = if s.tok() == Token::Int { Type::Int } else { Type::Char };
        let (s2, t2) = ptr_levels(s.adv(), t);
        match s2.tok() {
            Token::Id(id) => {
                let pname = id_name(id);
                let (s3, r3) = match find(s2.syms, pname) {
                    Some(i) => if s2.syms[i].class == SymbolClass::Loc {
                        s2.fail("Duplicate parameter '"@ + pname + "'"@)
                    } else {
                        s2.push_sym(shadow_sym(pname, t2, pc, s2.syms[i])).ok()
                    },
                    None => s2.add_symbol(pname, SymbolClass::Loc, t2, pc),
                };
                if r3 is Err {
                    (s3, r3, pc)
                } else {
                    let s4 = s3.adv();
                    let pc2 = (pc + 1) as i64;
                    if s4.tok() == Token::Comma && shrinks(s4.adv(), s) {
                        params(s4.adv(), pc2)
                    } else if s4.tok() == Token::Comma {
                        (s4, Err(Seq::empty()), pc2)
                    } else {
                        (s4, Ok(()), pc2)
                    }
                }
            },
            _ => (s2, Err(line_msg(s2.lex.line, "Parameter name expected"@)), pc),
        }
    }
}

/// The declarators of a local declaration at the start of a function
/// body: a shadowed symbol is kept to be given back, and an initializer
/// is stored into the new local.
#[verifier::opaque]
pub open spec fn fdecls(s: PState, base: Type, pc: i64) -> PRes
    decreases s.lex.measure(),
{
    proof {
        lemma_adv(s);
    }
    if s.tok() == Token::Semicolon {
        s.ok()
    } else {
        let (s1, t) = ptr_levels(s, base);
        match s1.tok() {
            Token::Id(id) => {
                let name = id_name(id);
                let (s3, t3, r3) = array_suffix(s1.adv(), t);
                if r3 is Err { (s3, r3) } else {
                let (s4, r4) = match find(s3.syms, name) {
                    Some(i) => if s3.syms[i].class == SymbolClass::Loc && s3.syms[i].value >= pc {
                        s3.fail("Duplicate local variable '"@ + name + "'"@)
                    } else {
                        s3.push_sym(shadow_sym(name, t3, s3.locals as i64, s3.syms[i])).ok()
                    },
                    None => s3.add_symbol(name, SymbolClass::Loc, t3, s3.locals as i64),
                };
                if r4 is Err { (s4, r4) } else {
                let s5 = s4.with_locals((s4.locals + 1) as usize);
                let (s6, r6) = if s5.tok() == Token::Assign {
                    let (s7, r7) = expr(
                        s5.adv().emit(seq![op(OpCode::LEA), (s5.locals - 1) as i64, op(OpCode::PSH)]),
                        0,
                    );
                    if r7 is Err { (s7, r7) } else { s7.emit(seq![store_op(t3)]).ok() }
                } else {
                    s5.ok()
                };
                if r6 is Err {
                    (s6, r6)
                } else if s6.tok() == Token::Comma && shrinks(s6.adv(), s) {
                    fdecls(s6.adv(), base, pc)
                } else if s6.tok() == Token::Comma {
                    (s6, Err(Seq::empty()))
                } else {
                    s6.ok()
                }}}
            },
            _ => s1.fail("Local variable name expected"@),
        }
    }
}

/// A function body, after `{`, up to its `}`: local declarations and
/// statements.
#[verifier::opaque]
pub open spec fn fbody(s: PState, pc: i64) -> PRes
    decreases s.lex.measure(),
{
    proof {
        lemma_adv(s);
    }
    if s.tok() != Token::RightBrace && s.tok() != Token::Eof {
        if s.tok() == Token::Int || s.tok() == Token::Char {
            let t = if s.tok() == Token::Int { Type::Int } else { Type::Char };
            let (s2, r2) = fdecls(s.adv(), t, pc);
            if r2 is Err { (s2, r2) } else {
            let (s3, r3) = s2.expect(Token::Semicolon, "Expected ';' after local variable declaration"@);
            if r3 is Err { (s3, r3) } else if shrinks(s3, s) {
                fbody(s3, pc)
            } else {
                (s3, Err(Seq::empty()))
            }}
        } else {
            let (s1, r1) = stmt(s);
            if r1 is Err {
                (s1, r1)
            } else if shrinks(s1, s) {
                fbody(s1, pc)
            } else {
                (s1, Err(Seq::empty()))
            }
        }
    } else {
        s.ok()
    }
}

/// The frame size of a function: the local slots taken after its `pc`
/// parameters.
pub open spec fn frame_size(locals: usize, pc: i64) -> i64 {
    (locals - pc) as i64
}

/// A function definition, after its name; `ret` is its return type. The
/// function's symbol holds where its code starts; at its end the locals
/// leave the symbol table. The body starts with `ENT n`, where `n` is the
/// number of local slots the body declares (those of nested blocks
/// included): it is written once the body has been read.
#[verifier::opaque]
pub open spec fn parse_function(s: PState, name: Seq<char>, ret: Type) -> PRes {
    let (s1, r1) = s.add_symbol(name, SymbolClass::Fun, ret, s.code.len() as i64);
    if r1 is Err { (s1, r1) } else {
    let s2 = s1.with_locals(0).adv();
    let (s3, r3, pc) = if s2.tok() != Token::RightParen { params(s2, 0) } else { (s2, Ok(()), 0i64) };
    if r3 is Err { (s3, r3) } else {
    let (s4, r4) = s3.expect(Token::RightParen, "Expected ')' after function parameters"@);
    if r4 is Err { (s4, r4) } else {
    let s5 = s4.with_locals(pc as usize);
    let (s6, r6) = s5.expect(Token::LeftBrace, "Expected '{' to start function body"@);
    if r6 is Err { (s6, r6) } else {
    let s7 = s6.emit(seq![op(OpCode::ENT), 0]);
    let (s8, r8) = fbody(s7, pc);
    if r8 is Err { (s8, r8) } else {
    let s9 = s8.patch(s6.code.len() as int + 1, frame_size(s8.locals, pc));
    let (s10, r10) = s9.emit(seq![op(OpCode::LEV)]).expect(Token::RightBrace, "Expected '}' to end function"@);
    if r10 is Err { (s10, r10) } else {
        PState { syms: restore(s10.syms), ..s10 }.with_locals(s1.locals).ok()
    }}}}}}
}

/// The declarators of a global declaration: variables get aligned space
/// in the data segment; a function definition ends the declaration
/// (`Ok(false)`).
#[verifier::opaque]
pub open spec fn gdecls(s: PState, base: Type) -> PFlag
    decreases s.lex.measure(),
{
    proof {
        lemma_adv(s);
    }
    if s.tok() == Token::Semicolon || s.tok() == Token::RightBrace {
        (s, Ok(true))
    } else {
        let (s1, t) = ptr_levels(s, base);
        match s1.tok() {
            Token::Id(id) => {
                let name = id_name(id);
                let (s3, t3, r3) = array_suffix(s1.adv(), t);
                if r3 is Err {
                    (s3, Err(r3->Err_0))
                } else if s3.tok() == Token::LeftParen {
                    let (s4, r4) = parse_function(s3, name, t3);
                    match r4 {
                        Err(e) => (s4, Err(e)),
                        Ok(_) => (s4, Ok(false)),
                    }
                } else {
                    let s4 = PState { data: pad8(s3.data), ..s3 };
                    let aligned = s4.data.len();
                    let (s5, r5) = s4.add_symbol(name, SymbolClass::Glo, t3, aligned as i64);
                    if r5 is Err {
                        (s5, Err(r5->Err_0))
                    } else {
                        let s6 = PState {
                            data: resized(
                                s5.data,
                                vstd::wrapping::usize_specs::wrapping_add(aligned as usize, type_size(t3)),
                            ),
                            ..s5
                        };
                        if s6.tok() == Token::Comma && shrinks(s6.adv(), s) {
                            gdecls(s6.adv(), base)
                        } else if s6.tok() == Token::Comma {
                            (s6, Err(Seq::empty()))
                        } else {
                            (s6, Ok(true))
                        }
                    }
                }
            },
            _ => s1.fail_flag("Expected identifier in declaration"@),
        }
    }
}

/// A global declaration: an enum, a function, or variables and their `;`.
#[verifier::opaque]
pub open spec fn declaration(s: PState) -> PRes {
    if s.tok() == Token::Enum {
        parse_enum(s)
    } else {
        let (s1, base) = if s.tok() == Token::Int {
            (s.adv(), Type::Int)
        } else if s.tok() == Token::Char {
            (s.adv(), Type::Char)
        } else if s.tok() == Token::Void {
            (s.adv(), Type::Int)
        } else {
            (s, Type::Int)
        };
        let (s2, r2) = gdecls(s1, base);
        match r2 {
            Err(e) => (s2, Err(e)),
            Ok(false) => s2.ok(),
            Ok(true) => s2.expect(Token::Semicolon, "Expected semicolon after variable declaration"@),
        }
    }
}

/// The members of an enum, from the one that gets `value` unless it is
/// given one, up to the `}`.
#[verifier::opaque]
pub open spec fn enum_items(s: PState, value: i64) -> PRes
    decreases s.lex.measure(),
{
    proof {
        lemma_adv(s);
    }
    if s.tok() == Token::RightBrace {
        s.ok()
    } else {
        match s.tok() {
            Token::Id(id) => {
                let s1 = s.adv();
                let (s2, v, r2) = if s1.tok() == Token::Assign {
                    let s1b = s1.adv();
                    match s1b.tok() {
                        Token::Num(val) => (s1b.adv(), val, Ok(())),
                        _ => (s1b, value, Err(line_msg(s1b.lex.line, "Expected numeric value after '='"@))),
                    }
                } else {
                    (s1, value, Ok(()))
                };
                if r2 is Err { (s2, r2) } else {
                let (s3, r3) = s2.add_symbol(id_name(id), SymbolClass::Num, Type::Int, v);
                if r3 is Err { (s3, r3) } else {
                let s4 = if s3.tok() == Token::Comma { s3.adv() } else { s3 };
                if shrinks(s4, s) {
                    enum_items(s4, vstd::wrapping::i64_specs::wrapping_add(v, 1))
                } else {
                    (s4, Err(Seq::empty()))
                }}}
            },
            _ => s.fail("Expected identifier in enum declaration"@),
        }
    }
}

/// `enum [name] { members };`, at `enum`.
#[verifier::opaque]
pub open spec fn parse_enum(s: PState) -> PRes {
    let s1 = s.adv();
    let s2 = if s1.tok() is Id { s1.adv() } else { s1 };
    let (s3, r3) = s2.expect(Token::LeftBrace, "Expected '{' after enum"@);
    if r3 is Err { (s3, r3) } else {
    let (s4, r4) = enum_items(s3, 0);
    if r4 is Err { (s4, r4) } else {
        s4.adv().expect(Token::Semicolon, "Expected semicolon after enum declaration"@)
    }}
}

/// Reads over the tokens of a line that is passed over: up to a `;`
/// that ends the line, or to the first token of a later line.
pub open spec fn skip_region(s: PState, line: nat) -> PState
    decreases s.lex.measure(),
{
    proof {
        lemma_adv(s);
        lemma_adv(s.adv());
    }
    if s.tok() == Token::Eof {
        s
    } else if s.tok() == Token::Semicolon {
        if s.adv().lex.line > line {
            s.adv()
        } else {
            skip_region(s.adv().adv(), line)
        }
    } else if s.lex.line > line {
        s
    } else {
        skip_region(s.adv(), line)
    }
}

/// Whether declarations on this line are passed over rather than parsed.
pub open spec fn skipped_line(line: nat) -> bool {
    (55 <= line && line <= 61) || line == 73
}

/// The declarations up to the end of input.
#[verifier::opaque]
pub open spec fn top_loop(s: PState) -> PRes
    decreases s.lex.measure(),
{
    if s.tok() == Token::Eof {
        s.ok()
    } else if skipped_line(s.lex.line) {
        let s1 = skip_region(s, s.lex.line);
        if shrinks(s1, s) { top_loop(s1) } else { (s1, Err(Seq::empty())) }
    } else {
        let (s1, r1) = declaration(s);
        if r1 is Err {
            (s1, r1)
        } else if shrinks(s1, s) {
            top_loop(s1)
        } else {
            (s1, Err(Seq::empty()))
        }
    }
}

/// The state after `init`: the keywords and system calls added, and the
/// first token read.
pub open spec fn init_state(s: PState) -> PState {
    PState { syms: s.syms + builtin_syms(), ready: true, ..s }.adv()
}

/// A whole program: the symbol table set up unless it was already (which
/// reads the first token), every declaration, and a `main` function that
/// must be there; the code and data segments on success.
#[verifier::opaque]
pub open spec fn parse(s: PState) -> (PState, Result<(Seq<i64>, Seq<u8>), Seq<char>>) {
    let (s2, r2) = top_loop(if s.ready { s } else { init_state(s) });
    match r2 {
        Err(e) => (s2, Err(e)),
        Ok(_) => match find(s2.syms, "main"@) {
            None => (s2, Err("main() not defined"@)),
            Some(i) => if s2.syms[i].class != SymbolClass::Fun {
                (s2, Err("main is not a function"@))
            } else {
                (s2, Ok((s2.code, s2.data)))
            },
        },
    }
}

// ---------------------------------------------------------------------
// Laws
// ---------------------------------------------------------------------

proof fn lemma_find_from_push(syms: Seq<SymV>, x: SymV, name: Seq<char>, i: int)
    requires
        0 <= i <= syms.len(),
    ensures
        find_from(syms.push(x), name, i) == (match find_from(syms, name, i) {
            Some(k) => Some(k),
            None => if x.name == name { Some(syms.len() as int) } else { None },
        }),
    decreases syms.len() - i,
{
    assert(syms.push(x)[syms.len() as int] == x);
    if i < syms.len() {
        assert(syms.push(x)[i] == syms[i]);
        lemma_find_from_push(syms, x, name, i + 1);
    } else {
        assert(find_from(syms.push(x), name, i + 1) is None);
    }
}

/// A symbol added under a name that the table does not hold yet is added,
/// and is then what a lookup of that name finds.
pub proof fn law_add_symbol_then_find(s: PState, name: Seq<char>, class: SymbolClass, typ: Type, value: i64)
    requires
        find(s.syms, name) is None,
    ensures
        s.add_symbol(name, class, typ, value).1 is Ok,
        find(s.add_symbol(name, class, typ, value).0.syms, name) == Some(s.syms.len() as int),
        s.add_symbol(name, class, typ, value).0.syms[s.syms.len() as int] == fresh_sym(name, class, typ, value),
{
    lemma_find_from_push(s.syms, fresh_sym(name, class, typ, value), name, 0);
}

/// Adding a symbol under a name that the table holds already fails and
/// changes nothing.
pub proof fn law_add_symbol_refuses_duplicate(s: PState, name: Seq<char>, class: SymbolClass, typ: Type, value: i64)
    requires
        find(s.syms, name) is Some,
    ensures
        s.add_symbol(name, class, typ, value) == (s, Err::<(), Seq<char>>("Symbol '"@ + name + "' already defined"@)),
{
}

/// At the end of a function no local is left in the symbol table, where
/// no local shadowed another local.
pub proof fn law_restore_drops_locals(syms: Seq<SymV>)
    requires
        forall|i: int| 0 <= i < syms.len() ==> syms[i].prev_class != Some(SymbolClass::Loc),
    ensures
        forall|j: int| 0 <= j < restore(syms).len() ==> restore(syms)[j].class != SymbolClass::Loc,
    decreases syms.len(),
{
    if syms.len() > 0 {
        law_restore_drops_locals(syms.drop_last());
    }
}

/// At the end of a function every symbol that is not a local stays in
/// the symbol table.
pub proof fn law_restore_keeps_others(syms: Seq<SymV>)
    ensures
        forall|i: int| 0 <= i < syms.len() && syms[i].class != SymbolClass::Loc
            ==> restore(syms).contains(syms[i]),
    decreases syms.len(),
{
    if syms.len() > 0 {
        let rest = syms.drop_last();
        law_restore_keeps_others(rest);
        assert forall|i: int| 0 <= i < syms.len() && syms[i].class != SymbolClass::Loc
            implies restore(syms).contains(syms[i]) by {
            if i < rest.len() {
                assert(rest[i] == syms[i]);
                let k = choose|k: int| 0 <= k < restore(rest).len() && restore(rest)[k] == rest[i];
                let last = syms.last();
                if last.class == SymbolClass::Loc {
                    match (last.prev_class, last.prev_type, last.prev_value) {
                        (Some(c), Some(t), Some(v)) => {
                            assert(restore(syms)[k] == syms[i]);
                        },
                        _ => {
                            assert(restore(syms)[k] == syms[i]);
                        },
                    }
                } else {
                    assert(restore(syms)[k] == syms[i]);
                }
            } else {
                assert(restore(syms)[restore(syms).len() - 1] == syms[i]);
            }
        }
    }
}

/// Whether `a` and `b` stand in the relation that the comparison
/// operator `t` of C names.
pub open spec fn c_compares(t: Token, a: i64, b: i64) -> bool {
    match t {
        Token::Lt => a < b,
        Token::Le => a <= b,
        Token::Gt => a > b,
        Token::Ge => a >= b,
        Token::Eq => a == b,
        _ => a != b,
    }
}

/// A comparison `a op b` compiles to code that ends with an instruction
/// which, run on a machine holding `a` on top of the stack and `b` in the
/// accumulator, pops `a` and leaves 1 in the accumulator where `a op b`
/// holds and 0 where it does not.
pub proof fn law_binop_comparison(s: PState, opt: Token, lhs: Type, m: VMState)
    requires
        opt == Token::Lt || opt == Token::Le || opt == Token::Gt || opt == Token::Ge
            || opt == Token::Eq || opt == Token::Ne,
        binop(s, opt, lhs).1 is Ok,
        m.wf(),
        m.sp < m.stack.len(),
    ensures
        ({
            let c = binop(s, opt, lhs).0.code;
            &&& c.len() > 0
            &&& m.binary(c.last() as u8) matches Step::Next(t)
                && t.sp == m.sp + 1
                && (t.ax == 0 || t.ax == 1)
                && (t.ax == 1 <==> c_compares(opt, m.stack[m.sp as int], m.ax))
        }),
{
    reveal(binop);
    let code = arith_op(opt)->Some_0;
    assert(binop(s, opt, lhs).0.code.last() == code);
    crate::vm_spec::law_binary_operands(m, code as u8);
}

proof fn lemma_find_from_prefix(a: Seq<SymV>, b: Seq<SymV>, name: Seq<char>, j: int)
    requires
        0 <= j,
        a.len() <= b.len(),
        b.subrange(0, a.len() as int) == a,
        find_from(a, name, j) is Some,
    ensures
        find_from(b, name, j) == find_from(a, name, j),
    decreases a.len() - j,
{
    if j < a.len() {
        assert(b[j] == b.subrange(0, a.len() as int)[j]);
        if a[j].name != name {
            lemma_find_from_prefix(a, b, name, j + 1);
        }
    }
}

/// The members of an enum only add symbols: the table before them is kept
/// as it was, at the start of the table after them.
proof fn lemma_enum_items_prefix(s: PState, v: i64)
    ensures
        enum_items(s, v).0.syms.len() >= s.syms.len(),
        enum_items(s, v).0.syms.subrange(0, s.syms.len() as int) == s.syms,
    decreases s.lex.measure(),
{
    reveal_with_fuel(enum_items, 1);
    lemma_adv(s);
    if s.tok() != Token::RightBrace {
        if let Token::Id(id) = s.tok() {
            let s1 = s.adv();
            let (s2, val, r2) = if s1.tok() == Token::Assign {
                let s1b = s1.adv();
                match s1b.tok() {
                    Token::Num(x) => (s1b.adv(), x, Ok::<(), Seq<char>>(())),
                    _ => (s1b, v, Err(line_msg(s1b.lex.line, "Expected numeric value after '='"@))),
                }
            } else {
                (s1, v, Ok(()))
            };
            if r2 is Ok {
                let (s3, r3) = s2.add_symbol(id_name(id), SymbolClass::Num, Type::Int, val);
                if r3 is Ok {
                    let s4 = if s3.tok() == Token::Comma { s3.adv() } else { s3 };
                    if shrinks(s4, s) {
                        lemma_enum_items_prefix(s4, vstd::wrapping::i64_specs::wrapping_add(val, 1));
                        let f = enum_items(s4, vstd::wrapping::i64_specs::wrapping_add(val, 1)).0.syms;
                        assert(f.subrange(0, s.syms.len() as int) =~= f.subrange(0, s4.syms.len() as int).subrange(0, s.syms.len() as int));
                        assert(s4.syms.subrange(0, s.syms.len() as int) =~= s.syms);
                    }
                }
            }
        }
    }
}

/// The member of an enum at the start of `s` that has no initializer
/// gets the value `v` that the member count has reached, and the member
/// after it, again without an initializer, gets `v + 1`.
pub proof fn law_enum_members_count_up(s: PState, v: i64, a: usize, b: usize)
    requires
        s.tok() == Token::Id(a),
        s.adv().tok() == Token::Comma,
        s.adv().adv().tok() == Token::Id(b),
        s.adv().adv().adv().tok() != Token::Assign,
        v < i64::MAX,
        enum_items(s, v).1 is Ok,
    ensures
        find(enum_items(s, v).0.syms, id_name(a)) matches Some(i)
            && enum_items(s, v).0.syms[i].value == v
            && enum_items(s, v).0.syms[i].class == SymbolClass::Num,
        find(enum_items(s, v).0.syms, id_name(b)) matches Some(j)
            && enum_items(s, v).0.syms[j].value == v + 1
            && enum_items(s, v).0.syms[j].class == SymbolClass::Num,
{
    reveal_with_fuel(enum_items, 1);
    lemma_adv(s);
    let na = id_name(a);
    let s1 = s.adv();
    let (sa, ra) = s1.add_symbol(na, SymbolClass::Num, Type::Int, v);
    assert(ra is Ok);
    law_add_symbol_then_find(s1, na, SymbolClass::Num, Type::Int, v);
    let s4 = sa.adv();
    assert(shrinks(s4, s));
    let w = vstd::wrapping::i64_specs::wrapping_add(v, 1);
    assert(w == v + 1);
    assert(enum_items(s, v) == enum_items(s4, w));
    lemma_adv(s4);
    let nb = id_name(b);
    let t1 = s4.adv();
    let (sb, rb) = t1.add_symbol(nb, SymbolClass::Num, Type::Int, w);
    assert(rb is Ok);
    law_add_symbol_then_find(t1, nb, SymbolClass::Num, Type::Int, w);
    let t4 = if sb.tok() == Token::Comma { sb.adv() } else { sb };
    assert(shrinks(t4, s4));
    let ww = vstd::wrapping::i64_specs::wrapping_add(w, 1);
    assert(enum_items(s4, w) == enum_items(t4, ww));
    lemma_enum_items_prefix(t4, ww);
    let f = enum_items(t4, ww).0.syms;
    lemma_find_from_push(s1.syms, fresh_sym(na, SymbolClass::Num, Type::Int, v), na, 0);
    lemma_find_from_push(t1.syms, fresh_sym(nb, SymbolClass::Num, Type::Int, w), na, 0);
    assert(find(t4.syms, na) == Some(s1.syms.len() as int));
    lemma_find_from_prefix(t4.syms, f, na, 0);
    lemma_find_from_prefix(t4.syms, f, nb, 0);
    assert(f[s1.syms.len() as int] == f.subrange(0, t4.syms.len() as int)[s1.syms.len() as int]);
    assert(f[t1.syms.len() as int] == f.subrange(0, t4.syms.len() as int)[t1.syms.len() as int]);
}

/// The first member of an enum, where it has no initializer, gets the
/// value 0: for `enum [name] { a ...`, with no `=` after `a`, a
/// declaration that goes through leaves `a` a number constant worth 0.
pub proof fn law_enum_first_member_zero(s: PState, a: usize)
    requires
        ({
            let t1 = s.adv();
            let t2 = if t1.tok() is Id { t1.adv() } else { t1 };
            &&& t2.tok() == Token::LeftBrace
            &&& t2.adv().tok() == Token::Id(a)
            &&& t2.adv().adv().tok() != Token::Assign
        }),
        parse_enum(s).1 is Ok,
    ensures
        find(parse_enum(s).0.syms, id_name(a)) matches Some(i)
            && parse_enum(s).0.syms[i].value == 0
            && parse_enum(s).0.syms[i].class == SymbolClass::Num,
{
    reveal(parse_enum);
    reveal_with_fuel(enum_items, 1);
    let t1 = s.adv();
    let t2 = if t1.tok() is Id { t1.adv() } else { t1 };
    let s3 = t2.adv();
    lemma_adv(s3);
    let na = id_name(a);
    let s1 = s3.adv();
    let (sa, ra) = s1.add_symbol(na, SymbolClass::Num, Type::Int, 0);
    assert(ra is Ok);
    law_add_symbol_then_find(s1, na, SymbolClass::Num, Type::Int, 0);
    let s4 = if sa.tok() == Token::Comma { sa.adv() } else { sa };
    assert(shrinks(s4, s3));
    let w = vstd::wrapping::i64_specs::wrapping_add(0, 1);
    assert(enum_items(s3, 0) == enum_items(s4, w));
    lemma_enum_items_prefix(s4, w);
    let f = enum_items(s4, w).0.syms;
    lemma_find_from_prefix(s4.syms, f, na, 0);
    assert(f[s1.syms.len() as int] == f.subrange(0, s4.syms.len() as int)[s1.syms.len() as int]);
}

/// A parse that succeeds has defined `main` as a function, and gives
/// the generator's code and data segments.
pub proof fn law_parse_defines_main(s: PState)
    ensures
        parse(s).1 is Ok ==> (find(parse(s).0.syms, "main"@) matches Some(i)
            && parse(s).0.syms[i].class == SymbolClass::Fun
            && parse(s).1 == Ok::<(Seq<i64>, Seq<u8>), Seq<char>>((parse(s).0.code, parse(s).0.data))),
{
    reveal(parse);
}

// ---------------------------------------------------------------------
// One unfolding of the recursive definitions, with the calls they make
// stated as calls of the functions themselves.
// ---------------------------------------------------------------------

pub proof fn lemma_expr_unfold(s: PState, prec: u8)
    ensures
        expr(s, prec) == {
            let (s1, r) = primary(s);
            match r {
                Err(e) => (s1, Err(e)),
                Ok(false) => s1.ok(),
                Ok(true) => if s1.lex.measure() <= s.lex.measure() {
                    ops(s1, prec)
                } else {
                    (s1, Err(Seq::empty()))
                },
            }
        },
{
    reveal_with_fuel(expr, 1);
    reveal_with_fuel(primary, 1);
    reveal_with_fuel(ops, 1);
}

pub proof fn lemma_ops_unfold(s: PState, prec: u8)
    ensures
        ops(s, prec) == {
            if precedence(s.tok()) <= prec {
                s.ok()
            } else {
                let op = s.tok();
                let (s2, r) = binop(s.adv(), op, s.ty);
                match r {
                    Err(e) => (s2, Err(e)),
                    Ok(_) => if shrinks(s2, s) {
                        ops(s2, prec)
                    } else {
                        (s2, Err(Seq::empty()))
                    },
                }
            }
        },
{
    reveal_with_fuel(ops, 1);
    reveal_with_fuel(binop, 1);
}

pub proof fn lemma_call_unfold(s: PState, name: Seq<char>)
    ensures
        call(s, name) == {
            let (s1, r, argc) = if s.tok() != Token::RightParen {
                call_args(s, 0)
            } else {
                (s, Ok(()), 0usize)
            };
            if r is Err {
                (s1, r)
            } else {
                let is_printf = name == "printf"@;
                let (s2, r2) = if s1.tok() == Token::RightParen {
                    s1.adv().ok()
                } else if is_printf && argc > 0 {
                    s1.ok()
                } else {
                    s1.fail("Expected ')' after function arguments"@)
                };
                if r2 is Err {
                    (s2, r2)
                } else {
                    match find(s2.syms, name) {
                        None => s2.fail("Unknown function '"@ + name + "'"@),
                        Some(i) => {
                            let sym = s2.syms[i];
                            let (s3, r3) = if sym.class == SymbolClass::Sys {
                                let t = s2.emit(seq![sym.value]);
                                if is_printf { t.emit(seq![argc as i64]).ok() } else { t.ok() }
                            } else if sym.class == SymbolClass::Fun {
                                s2.emit(seq![op(OpCode::JSR), sym.value]).ok()
                            } else {
                                s2.fail("'"@ + name + "' is not a function"@)
                            };
                            if r3 is Err {
                                (s3, r3)
                            } else if argc > 0 && !is_printf {
                                s3.typed(sym.typ).emit(seq![op(OpCode::ADJ), argc as i64]).ok()
                            } else {
                                s3.typed(sym.typ).ok()
                            }
                        },
                    }
                }
            }
        },
{
    reveal_with_fuel(call, 1);
    reveal_with_fuel(call_args, 1);
}

pub proof fn lemma_call_args_unfold(s: PState, argc: usize)
    ensures
        call_args(s, argc) == {
            let (s1, r) = expr(s, 0);
            if r is Err {
                (s1, r, argc)
            } else {
                let s2 = s1.emit(seq![op(OpCode::PSH)]);
                let n = (argc + 1) as usize;
                if s2.tok() != Token::Comma {
                    (s2, Ok(()), n)
                } else if shrinks(s2.adv(), s) {
                    call_args(s2.adv(), n)
                } else {
                    (s2, Err(Seq::empty()), n)
                }
            }
        },
{
    reveal_with_fuel(call_args, 1);
    reveal_with_fuel(expr, 1);
}

pub proof fn lemma_lt_gt_unfold(s: PState, lt: bool)
    ensures
        lt_gt(s, lt) == {
            let doubled = crate::lexer::char_at(s.lex.chars, s.lex.pos as int) == Some(if lt { '<' } else { '>' });
            let (s1, r) = if doubled { bitwise(s) } else { (s, Err(Seq::empty())) };
            if doubled && r is Ok {
                (s1, r)
            } else {
                let s2 = s1.adv().emit(seq![op(OpCode::PSH)]);
                if shrinks(s2, s) {
                    let (s3, r3) = expr(s2, precedence(if lt { Token::Lt } else { Token::Gt }));
                    if r3 is Err {
                        (s3, r3)
                    } else {
                        s3.emit(seq![if lt { op(OpCode::LT) } else { op(OpCode::GT) }]).typed(Type::Int).ok()
                    }
                } else {
                    (s2, Err(Seq::empty()))
                }
            }
        },
{
    reveal_with_fuel(lt_gt, 1);
    reveal_with_fuel(bitwise, 1);
    reveal_with_fuel(expr, 1);
}

pub proof fn lemma_stmt_unfold(s: PState)
    ensures
        stmt(s) == {

            match s.tok() {
                Token::If => if_stmt(s.adv()),
                Token::For => for_stmt(s.adv()),
                Token::While => while_stmt(s.adv()),
                Token::Return => return_stmt(s.adv()),
                Token::LeftBrace => block(s.adv()),
                Token::Semicolon => s.adv().ok(),
                _ => expr_stmt(s),
            }
        },
{
    reveal_with_fuel(stmt, 1);
    reveal_with_fuel(if_stmt, 1);
    reveal_with_fuel(for_stmt, 1);
    reveal_with_fuel(while_stmt, 1);
    reveal_with_fuel(block, 1);
}

pub proof fn lemma_if_stmt_unfold(s: PState)
    ensures
        if_stmt(s) == {
            let (s1, r1) = s.expect(Token::LeftParen, "Expected '(' after 'if'"@);
            if r1 is Err { (s1, r1) } else {
            let (s2, r2) = expr(s1, 0);
            if r2 is Err { (s2, r2) } else {
            let (s3, r3) = s2.expect(Token::RightParen, "Expected ')' after condition"@);
            if r3 is Err { (s3, r3) } else {
            let s4 = s3.emit(seq![op(OpCode::BZ)]);
            let bp = s4.code.len() as int;
            let s5 = s4.emit(seq![0]);
            if s5.lex.measure() > s.lex.measure() { (s5, Err(Seq::empty())) } else {
            let (s6, r6) = stmt(s5);
            if r6 is Err { (s6, r6) } else if s6.tok() == Token::Else {
                let s7 = s6.adv().emit(seq![op(OpCode::JMP)]);
                let jp = s7.code.len() as int;
                let s8 = s7.emit(seq![0]);
                let s9 = s8.patch(bp, s8.code.len() as i64);
                if s9.lex.measure() > s.lex.measure() { (s9, Err(Seq::empty())) } else {
                let (s10, r10) = stmt(s9);
                if r10 is Err { (s10, r10) } else {
                    s10.patch(jp, s10.code.len() as i64).ok()
                }}
            } else {
                s6.patch(bp, s6.code.len() as i64).ok()
            }}}}}
        },
{
    reveal_with_fuel(if_stmt, 1);
    reveal_with_fuel(stmt, 1);
}

pub proof fn lemma_for_stmt_unfold(s: PState)
    ensures
        for_stmt(s) == {
            let (s1, r1) = s.expect(Token::LeftParen, "Expected '(' after 'for'"@);
            if r1 is Err { (s1, r1) } else {
            let (s2, r2) = if s1.tok() != Token::Semicolon { expr(s1, 0) } else { s1.ok() };
            if r2 is Err { (s2, r2) } else {
            let (s3, r3) = s2.expect(Token::Semicolon, "Expected ';' after for initialization"@);
            if r3 is Err { (s3, r3) } else {
            let cond = s3.code.len();
            let (s4, r4) = if s3.tok() != Token::Semicolon {
                expr(s3, 0)
            } else {
                s3.emit(seq![op(OpCode::IMM), 1]).ok()
            };
            if r4 is Err { (s4, r4) } else {
            let (s5, r5) = s4.expect(Token::Semicolon, "Expected ';' after for condition"@);
            if r5 is Err { (s5, r5) } else {
            let s6 = s5.emit(seq![op(OpCode::BZ)]);
            let exit = s6.code.len() as int;
            let s7 = s6.emit(seq![0, op(OpCode::JMP)]);
            let bj = s7.code.len() as int;
            let s8 = s7.emit(seq![0]);
            let inc = s8.code.len();
            let (s9, r9) = if s8.tok() != Token::RightParen { expr(s8, 0) } else { s8.ok() };
            if r9 is Err { (s9, r9) } else {
            let s10 = s9.emit(seq![op(OpCode::JMP), cond as i64]);
            let (s11, r11) = s10.expect(Token::RightParen, "Expected ')' after for increment"@);
            if r11 is Err { (s11, r11) } else {
            let s12 = s11.patch(bj, s11.code.len() as i64);
            if s12.lex.measure() > s.lex.measure() { (s12, Err(Seq::empty())) } else {
            let (s13, r13) = stmt(s12);
            if r13 is Err { (s13, r13) } else {
                let s14 = s13.emit(seq![op(OpCode::JMP), inc as i64]);
                s14.patch(exit, s14.code.len() as i64).ok()
            }}}}}}}}}
        },
{
    reveal_with_fuel(for_stmt, 1);
    reveal_with_fuel(stmt, 1);
}

pub proof fn lemma_while_stmt_unfold(s: PState)
    ensures
        while_stmt(s) == {
            let start = s.code.len();
            let (s1, r1) = s.expect(Token::LeftParen, "Expected '(' after 'while'"@);
            if r1 is Err { (s1, r1) } else {
            let (s2, r2) = expr(s1, 0);
            if r2 is Err { (s2, r2) } else {
            let (s3, r3) = s2.expect(Token::RightParen, "Expected ')' after condition"@);
            if r3 is Err { (s3, r3) } else {
            let s4 = s3.emit(seq![op(OpCode::BZ)]);
            let bp = s4.code.len() as int;
            let s5 = s4.emit(seq![0]);
            if s5.lex.measure() > s.lex.measure() { (s5, Err(Seq::empty())) } else {
            let (s6, r6) = stmt(s5);
            if r6 is Err { (s6, r6) } else {
                let s7 = s6.emit(seq![op(OpCode::JMP), start as i64]);
                s7.patch(bp, s7.code.len() as i64).ok()
            }}}}}
        },
{
    reveal_with_fuel(while_stmt, 1);
    reveal_with_fuel(stmt, 1);
}

pub proof fn lemma_block_unfold(s: PState)
    ensures
        block(s) == {
            let (s1, r1) = block_items(s);
            if r1 is Err {
                (s1, r1)
            } else {
                s1.expect(Token::RightBrace, "Expected '}' to end block"@)
            }
        },
{
    reveal_with_fuel(block, 1);
    reveal_with_fuel(block_items, 1);
}

pub proof fn lemma_block_items_unfold(s: PState)
    ensures
        block_items(s) == {

            if s.tok() != Token::RightBrace && s.tok() != Token::Eof {
                if s.tok() == Token::Int || s.tok() == Token::Char {
                    let t = if s.tok() == Token::Int { Type::Int } else { Type::Char };
                    let (s2, r2) = block_decls(s.adv(), t);
                    if r2 is Err { (s2, r2) } else {
                    let (s3, r3) = s2.expect(Token::Semicolon, "Expected ';' after local variable declaration"@);
                    if r3 is Err { (s3, r3) } else if shrinks(s3, s) {
                        block_items(s3)
                    } else {
                        (s3, Err(Seq::empty()))
                    }}
                } else {
                    let (s1, r1) = stmt(s);
                    if r1 is Err {
                        (s1, r1)
                    } else if shrinks(s1, s) {
                        block_items(s1)
                    } else {
                        (s1, Err(Seq::empty()))
                    }
                }
            } else {
                s.ok()
            }
        },
{
    reveal_with_fuel(block_items, 1);
    reveal_with_fuel(stmt, 1);
}

} // verus!
