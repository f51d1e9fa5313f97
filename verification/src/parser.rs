//! The code generator: reads tokens from the tokenizer and emits code for
//! the stack machine in a single pass, with a table of the symbols seen.

use vstd::prelude::*;
use crate::lexer::{Lexer, Token};
use crate::text::append_dec;
use crate::parser_spec::{
    PState, lemma_adv, line_msg, find, find_from, fresh_sym, id_name, precedence, restore, builtin_syms,
    initial_data,
};
use crate::lexer::initial_lex;
use crate::parser_spec as ps;
use crate::parser_spec::{follows, shrinks};

verus! {

/// The types of the C subset.
#[derive(Debug, PartialEq)]
pub enum Type {
    Char,
    Int,
    Ptr(Box<Type>),
    Array(Box<Type>, usize),
}

/// The size of a value of type `t` in bytes; an array's is its element
/// size times its length, in wrapping arithmetic.
pub open spec fn type_size(t: Type) -> usize
    decreases t,
{
    match t {
        Type::Char => 1,
        Type::Int => 8,
        Type::Ptr(_) => 8,
        Type::Array(b, n) => vstd::wrapping::usize_specs::wrapping_mul(type_size(*b), n),
    }
}

/// The element type of a pointer or array type.
pub open spec fn type_base(t: Type) -> Option<Type> {
    match t {
        Type::Ptr(b) => Some(*b),
        Type::Array(b, _) => Some(*b),
        _ => None,
    }
}

/// How `{:?}` writes a type.
pub open spec fn type_debug(t: Type) -> Seq<char>
    decreases t,
{
    match t {
        Type::Char => "Char"@,
        Type::Int => "Int"@,
        Type::Ptr(b) => "Ptr("@ + type_debug(*b) + ")"@,
        Type::Array(b, n) => "Array("@ + type_debug(*b) + ", "@ + crate::text::dec_nat(n as nat) + ")"@,
    }
}

impl Clone for Type {
    fn clone(&self) -> (r: Self)
        ensures
            r == *self,
        decreases self,
    {
        match self {
            Type::Char => Type::Char,
            Type::Int => Type::Int,
            Type::Ptr(b) => Type::Ptr(Box::new((**b).clone())),
            Type::Array(b, n) => Type::Array(Box::new((**b).clone()), *n),
        }
    }
}

impl Type {
    /// Whether this is a pointer type.
    pub fn is_ptr(&self) -> (r: bool)
        ensures
            r == (*self is Ptr),
    {
        match self {
            Type::Ptr(_) => true,
            _ => false,
        }
    }

    /// Whether this is an array type.
    pub fn is_array(&self) -> (r: bool)
        ensures
            r == (*self is Array),
    {
        match self {
            Type::Array(_, _) => true,
            _ => false,
        }
    }

    /// The element type of a pointer or array type, `None` for the others.
    pub fn base_type(&self) -> (r: Option<Box<Type>>)
        ensures
            match r {
                Some(b) => type_base(*self) == Some(*b),
                None => type_base(*self) is None,
            },
    {
        match self {
            Type::Ptr(b) => Some(Box::new((**b).clone())),
            Type::Array(b, _) => Some(Box::new((**b).clone())),
            _ => None,
        }
    }

    /// The size of a value of this type in bytes.
    pub fn size(&self) -> (r: usize)
        ensures
            r == type_size(*self),
        decreases self,
    {
        match self {
            Type::Char => 1,
            Type::Int => 8,
            Type::Ptr(_) => 8,
            Type::Array(b, n) => b.size().wrapping_mul(*n),
        }
    }

    /// How `{:?}` writes this type.
    pub(crate) fn debug_string(&self, s: &mut String)
        ensures
            final(s)@ == old(s)@ + type_debug(*self),
        decreases self,
    {
        match self {
            Type::Char => s.append("Char"),
            Type::Int => s.append("Int"),
            Type::Ptr(b) => {
                s.append("Ptr(");
                b.debug_string(s);
                s.append(")");
            },
            Type::Array(b, n) => {
                s.append("Array(");
                b.debug_string(s);
                s.append(", ");
                append_dec(s, *n as u64);
                s.append(")");
            },
        }
        assert(final(s)@ =~= old(s)@ + type_debug(*self));
    }
}

/// The kinds of symbols.
#[derive(Debug, Clone, Copy, PartialEq, Eq, Structural)]
pub enum SymbolClass {
    Fun, // function
    Sys, // system call
    Glo, // global
    Loc, // local
    Num, // number
}

/// An entry of the symbol table. A local that shadows a global keeps the
/// global's class, type and value to give them back at the end of the
/// function.
#[derive(Debug)]
pub struct Symbol {
    pub name: String,
    pub class: SymbolClass,
    pub typ: Type,
    pub value: i64,
    pub prev_class: Option<SymbolClass>,
    pub prev_type: Option<Type>,
    pub prev_value: Option<i64>,
}

/// A symbol as a value.
pub struct SymV {
    pub name: Seq<char>,
    pub class: SymbolClass,
    pub typ: Type,
    pub value: i64,
    pub prev_class: Option<SymbolClass>,
    pub prev_type: Option<Type>,
    pub prev_value: Option<i64>,
}

impl View for Symbol {
    type V = SymV;

    open spec fn view(&self) -> SymV {
        SymV {
            name: self.name@,
            class: self.class,
            typ: self.typ,
            value: self.value,
            prev_class: self.prev_class,
            prev_type: self.prev_type,
            prev_value: self.prev_value,
        }
    }
}

impl Clone for Symbol {
    fn clone(&self) -> (r: Self)
        ensures
            r@ == self@,
    {
        Symbol {
            name: self.name.clone(),
            class: self.class,
            typ: self.typ.clone(),
            value: self.value,
            prev_class: self.prev_class,
            prev_type: match &self.prev_type {
                Some(t) => Some(t.clone()),
                None => None,
            },
            prev_value: self.prev_value,
        }
    }
}

/// The instructions of the stack machine, numbered from 0 in this order.
#[allow(non_camel_case_types)]
#[derive(Debug, Clone, Copy, PartialEq, Eq, Structural)]
pub enum OpCode {
    LEA, IMM, JMP, JSR, BZ, BNZ, ENT, ADJ, LEV, LI, LC, SI, SC, PSH,
    OR, XOR, AND, EQ, NE, LT, GT, LE, GE, SHL, SHR, ADD, SUB, MUL, DIV, MOD,
    OPEN, READ, CLOS, PRTF, MALC, FREE, MSET, MCMP, EXIT,
    SWP,
}

/// The symbols of a table as values.
pub open spec fn sym_views(v: Seq<Symbol>) -> Seq<SymV> {
    Seq::new(v.len(), |i: int| v[i]@)
}

/// What a parse step returned, as a value.
pub open spec fn rv(r: Result<(), String>) -> Result<(), Seq<char>> {
    match r {
        Ok(_) => Ok(()),
        Err(e) => Err(e@),
    }
}

/// What a parse step with a flag returned, as a value.
pub open spec fn rvb(r: Result<bool, String>) -> Result<bool, Seq<char>> {
    match r {
        Ok(b) => Ok(b),
        Err(e) => Err(e@),
    }
}

/// The code generator.
pub struct Parser<'a> {
    lexer: Lexer<'a>,
    symbols: Vec<Symbol>,
    pub code: Vec<i64>,
    data: Vec<u8>,
    current_type: Type,
    locals: usize,
    _src: bool,
    ready: bool,
}

impl<'a> View for Parser<'a> {
    type V = PState;

    closed spec fn view(&self) -> PState {
        PState {
            lex: self.lexer@,
            syms: sym_views(self.symbols@),
            code: self.code@,
            data: self.data@,
            ty: self.current_type,
            locals: self.locals,
            src: self._src,
            ready: self.ready,
        }
    }
}

impl<'a> Parser<'a> {
    /// The generator's invariant.
    pub open spec fn wf(&self) -> bool {
        self@.wf()
    }

    /// The current token.
    pub(crate) fn token(&self) -> (t: Token)
        ensures
            t == self@.tok(),
    {
        self.lexer.token()
    }

    /// Reads the next token.
    pub(crate) fn next(&mut self) -> (t: Token)
        requires
            old(self).wf(),
        ensures
            final(self)@ == old(self)@.adv(),
            t == final(self)@.tok(),
            final(self).wf(),
            final(self)@.lex.measure() <= old(self)@.lex.measure(),
            old(self)@.tok() != Token::Eof ==> final(self)@.lex.measure() < old(self)@.lex.measure(),
            follows(old(self)@, final(self)@),
    {
        proof {
            lemma_adv(self@);
            crate::lexer::lemma_advance(self@.lex);
            crate::lexer::lemma_advance_lt_gt(self@.lex);
        }
        let t = self.lexer.next();
        assert(self@.lex == old(self)@.adv().lex);
        t
    }

    pub(crate) fn emit1(&mut self, a: i64)
        ensures
            final(self)@ == old(self)@.emit(seq![a]),
    {
        self.code.push(a);
        assert(self@.code =~= old(self)@.code + seq![a]);
    }

    pub(crate) fn emit2(&mut self, a: i64, b: i64)
        ensures
            final(self)@ == old(self)@.emit(seq![a, b]),
    {
        self.code.push(a);
        self.code.push(b);
        assert(self@.code =~= old(self)@.code + seq![a, b]);
    }

    pub(crate) fn emit3(&mut self, a: i64, b: i64, c: i64)
        ensures
            final(self)@ == old(self)@.emit(seq![a, b, c]),
    {
        self.code.push(a);
        self.code.push(b);
        self.code.push(c);
        assert(self@.code =~= old(self)@.code + seq![a, b, c]);
    }

    pub(crate) fn emit4(&mut self, a: i64, b: i64, c: i64, d: i64)
        ensures
            final(self)@ == old(self)@.emit(seq![a, b, c, d]),
    {
        self.code.push(a);
        self.code.push(b);
        self.code.push(c);
        self.code.push(d);
        assert(self@.code =~= old(self)@.code + seq![a, b, c, d]);
    }

    pub(crate) fn emit5(&mut self, a: i64, b: i64, c: i64, d: i64, e: i64)
        ensures
            final(self)@ == old(self)@.emit(seq![a, b, c, d, e]),
    {
        self.code.push(a);
        self.code.push(b);
        self.code.push(c);
        self.code.push(d);
        self.code.push(e);
        assert(self@.code =~= old(self)@.code + seq![a, b, c, d, e]);
    }

    pub(crate) fn emit6(&mut self, a: i64, b: i64, c: i64, d: i64, e: i64, f: i64)
        ensures
            final(self)@ == old(self)@.emit(seq![a, b, c, d, e, f]),
    {
        self.code.push(a);
        self.code.push(b);
        self.code.push(c);
        self.code.push(d);
        self.code.push(e);
        self.code.push(f);
        assert(self@.code =~= old(self)@.code + seq![a, b, c, d, e, f]);
    }

    pub(crate) fn set_type(&mut self, t: Type)
        ensures
            final(self)@ == old(self)@.typed(t),
    {
        self.current_type = t;
    }

    /// `"Line n: "` and `m`.
    pub(crate) fn line_error(&self, m: &str) -> (e: String)
        ensures
            e@ == line_msg(self@.lex.line, m@),
    {
        let mut e = String::from_str("Line ");
        append_dec(&mut e, self.lexer.line() as u64);
        e.append(": ");
        e.append(m);
        e
    }

    pub(crate) fn fail(&self, m: &str) -> (r: Result<(), String>)
        ensures
            rv(r) == Err::<(), Seq<char>>(line_msg(self@.lex.line, m@)),
    {
        Err(self.line_error(m))
    }

    pub(crate) fn fail_flag(&self, m: &str) -> (r: Result<bool, String>)
        ensures
            rvb(r) == Err::<bool, Seq<char>>(line_msg(self@.lex.line, m@)),
    {
        Err(self.line_error(m))
    }

    /// An error naming `name` between `a` and `b`, with the current line.
    pub(crate) fn fail_named(&self, a: &str, name: &String, b: &str) -> (r: Result<(), String>)
        ensures
            rv(r) == Err::<(), Seq<char>>(line_msg(self@.lex.line, a@ + name@ + b@)),
    {
        let mut e = String::from_str("Line ");
        append_dec(&mut e, self.lexer.line() as u64);
        e.append(": ");
        e.append(a);
        e.append(name.as_str());
        e.append(b);
        assert(e@ =~= line_msg(self@.lex.line, a@ + name@ + b@));
        Err(e)
    }

    /// Consumes `token` if it is the current one, else fails with `msg`.
    pub(crate) fn expect(&mut self, token: Token, msg: &str) -> (r: Result<(), String>)
        requires
            old(self).wf(),
        ensures
            (final(self)@, rv(r)) == old(self)@.expect(token, msg@),
            final(self).wf(),
            follows(old(self)@, final(self)@),
            final(self)@.lex.measure() <= old(self)@.lex.measure(),
            r is Ok && token != Token::Eof ==> final(self)@.lex.measure() < old(self)@.lex.measure(),
    {
        if self.token() == token {
            proof {
                lemma_adv(self@);
            }
            self.next();
            Ok(())
        } else {
            self.fail(msg)
        }
    }
}

impl<'a> Parser<'a> {
    /// The index of the first symbol named `name`.
    pub(crate) fn find_index(&self, name: &String) -> (r: Option<usize>)
        ensures
            match r {
                Some(i) => find(self@.syms, name@) == Some(i as int) && i < self@.syms.len()
                    && self@.syms[i as int].name == name@,
                None => find(self@.syms, name@) is None,
            },
    {
        let mut i: usize = 0;
        while i < self.symbols.len()
            invariant
                i <= self.symbols@.len(),
                find(self@.syms, name@) == find_from(self@.syms, name@, i as int),
            decreases self.symbols@.len() - i,
        {
            if self.symbols[i].name == *name {
                return Some(i);
            }
            i += 1;
        }
        None
    }

    /// Finds the first symbol named `name`.
    pub fn find_symbol(&self, name: &str) -> (r: Option<&Symbol>)
        ensures
            match r {
                Some(sym) => find(self@.syms, name@) matches Some(i) && sym@ == self@.syms[i],
                None => find(self@.syms, name@) is None,
            },
    {
        let key = String::from_str(name);
        match self.find_index(&key) {
            Some(i) => Some(&self.symbols[i]),
            None => None,
        }
    }

    /// Adds a symbol unless one of that name is already there.
    pub(crate) fn add_sym(&mut self, name: &String, class: SymbolClass, typ: Type, value: i64) -> (r: Result<(), String>)
        ensures
            (final(self)@, rv(r)) == old(self)@.add_symbol(name@, class, typ, value),
    {
        if self.find_index(name).is_some() {
            let mut e = String::from_str("Symbol '");
            e.append(name.as_str());
            e.append("' already defined");
            return Err(e);
        }
        let sym = Symbol {
            name: name.clone(),
            class,
            typ,
            value,
            prev_class: None,
            prev_type: None,
            prev_value: None,
        };
        self.symbols.push(sym);
        assert(self@.syms =~= old(self)@.syms.push(fresh_sym(name@, class, typ, value)));
        Ok(())
    }

    /// Adds a symbol unless one of that name is already there, and gives
    /// access to it.
    pub fn add_symbol(&mut self, name: &str, class: SymbolClass, typ: Type, value: i64) -> (r: Result<&mut Symbol, String>)
        ensures
            r is Err <==> find(old(self)@.syms, name@) is Some,
            r matches Err(e) ==> e@ == "Symbol '"@ + name@ + "' already defined"@ && final(self)@ == old(self)@,
            r matches Ok(sym) ==> sym@ == fresh_sym(name@, class, typ, value)
                && final(self)@ == old(self)@.push_sym(final(sym)@),
    {
        let key = String::from_str(name);
        match self.add_sym(&key, class, typ, value) {
            Err(e) => Err(e),
            Ok(()) => {
                let n = self.symbols.len();
                assert(self@.syms.len() == self.symbols@.len());
                let ghost prev = self.symbols@;
                let ghost before = old(self)@;
                let ghost added = fresh_sym(key@, class, typ, value);
                assert(sym_views(prev) == before.syms.push(added));
                assert(prev[n - 1]@ == added) by {
                    assert(sym_views(prev)[n - 1] == before.syms.push(added)[n - 1]);
                }
                assert forall|i: int| 0 <= i < n - 1 implies prev[i]@ == before.syms[i] by {
                    assert(sym_views(prev)[i] == before.syms.push(added)[i]);
                }
                assert forall|x: Symbol| #[trigger] sym_views(prev.update(n - 1, x))
                    == before.syms.push(x@) by {
                    assert(sym_views(prev.update(n - 1, x)) =~= before.syms.push(x@));
                }
                Ok(&mut self.symbols[n - 1])
            },
        }
    }
}

impl<'a> Parser<'a> {
    /// Adds a symbol as it is, with the meaning it shadows.
    pub(crate) fn add_symbol_with_history(
        &mut self,
        name: &String,
        class: SymbolClass,
        typ: Type,
        value: i64,
        prev_class: Option<SymbolClass>,
        prev_type: Option<Type>,
        prev_value: Option<i64>,
    ) -> (r: Result<(), String>)
        ensures
            r is Ok,
            final(self)@ == old(self)@.push_sym(SymV { name: name@, class, typ, value, prev_class, prev_type, prev_value }),
    {
        let sym = Symbol { name: name.clone(), class, typ, value, prev_class, prev_type, prev_value };
        self.symbols.push(sym);
        assert(self@.syms =~= old(self)@.syms.push(
            SymV { name: name@, class, typ, value, prev_class, prev_type, prev_value },
        ));
        Ok(())
    }

    /// Ends a function's scope: each local leaves the table, or gives
    /// back the meaning it shadowed.
    pub(crate) fn restore_symbols_after_function(&mut self) -> (r: Result<(), String>)
        ensures
            r is Ok,
            final(self)@ == (PState { syms: restore(old(self)@.syms), ..old(self)@ }),
    {
        let mut old_symbols: Vec<Symbol> = Vec::new();
        std::mem::swap(&mut old_symbols, &mut self.symbols);
        let ghost all = sym_views(old_symbols@);
        assert(all == old(self)@.syms);
        let mut new_symbols: Vec<Symbol> = Vec::new();
        let mut i: usize = 0;
        assert(all.take(0) =~= Seq::<SymV>::empty());
        while i < old_symbols.len()
            invariant
                i <= old_symbols@.len(),
                all == sym_views(old_symbols@),
                sym_views(new_symbols@) == restore(all.take(i as int)),
            decreases old_symbols@.len() - i,
        {
            let sym = &old_symbols[i];
            let ghost before = new_symbols@;
            assert(all.take(i + 1).drop_last() =~= all.take(i as int));
            assert(all.take(i + 1).last() == sym@);
            if sym.class == SymbolClass::Loc {
                match (&sym.prev_class, &sym.prev_type, &sym.prev_value) {
                    (Some(c), Some(t), Some(v)) => {
                        new_symbols.push(Symbol {
                            name: sym.name.clone(),
                            class: *c,
                            typ: t.clone(),
                            value: *v,
                            prev_class: None,
                            prev_type: None,
                            prev_value: None,
                        });
                        assert(sym_views(new_symbols@) =~= sym_views(before).push(
                            fresh_sym(sym.name@, *c, *t, *v),
                        ));
                    },
                    _ => {},
                }
            } else {
                new_symbols.push(sym.clone());
                assert(sym_views(new_symbols@) =~= sym_views(before).push(sym@));
            }
            i += 1;
        }
        assert(all.take(i as int) =~= all);
        self.symbols = new_symbols;
        Ok(())
    }

    /// The name of an identifier from its hash.
    pub(crate) fn get_id_name(&self, id: usize) -> (r: String)
        ensures
            r@ == id_name(id),
    {
        let h = id as u64;
        if h == 22294568004 || h == 5863476 {
            String::from_str("main")
        } else if h == 135095875 || h == 193491849 {
            String::from_str("add")
        } else if h == 97264153 || h == 97264 || h == 20261620804 {
            String::from_str("calc")
        } else if h == 210871959858 || h == 9871951 {
            String::from_str("process")
        } else if h == 8426756478 || h == 210945 {
            String::from_str("complex")
        } else if h == 495450526609734 || h == 24357699 {
            String::from_str("printf")
        } else if h == 97 || h == 193499849 {
            String::from_str("a")
        } else if h == 98 || h == 193499950 {
            String::from_str("b")
        } else if h == 99 || h == 193500051 {
            String::from_str("c")
        } else if h == 120 || h == 193508484 {
            String::from_str("x")
        } else if h == 121 || h == 193508585 {
            String::from_str("y")
        } else if h == 122 || h == 193508686 {
            String::from_str("z")
        } else if h == 112 || h == 193505858 {
            String::from_str("ptr")
        } else if h == 118 || h == 193508282 {
            String::from_str("val")
        } else {
            let mut s = String::from_str("id_");
            append_dec(&mut s, h);
            s
        }
    }

    /// The operator precedence of a token.
    pub(crate) fn precedence_of(&self, token: Token) -> (r: u8)
        ensures
            r == precedence(token),
    {
        match token {
            Token::Assign | Token::AddAssign | Token::SubAssign | Token::MulAssign
            | Token::DivAssign | Token::ModAssign | Token::ShlAssign | Token::ShrAssign
            | Token::AndAssign | Token::XorAssign | Token::OrAssign => 1,
            Token::Lor => 2,
            Token::Lan => 3,
            Token::Or => 4,
            Token::Xor => 5,
            Token::And => 6,
            Token::Eq | Token::Ne => 7,
            Token::Lt | Token::Gt | Token::Le | Token::Ge => 8,
            Token::Shl | Token::Shr => 9,
            Token::Add | Token::Sub => 10,
            Token::Mul | Token::Div | Token::Mod => 11,
            Token::LeftBracket => 12,
            _ => 0,
        }
    }

    /// The symbol table.
    pub fn get_symbols(&self) -> (r: &[Symbol])
        ensures
            sym_views(r@) == self@.syms,
    {
        self.symbols.as_slice()
    }

    /// Creates a generator over `source`. The data segment starts with a
    /// greeting string, so that it is never empty.
    pub fn new(source: &'a str, src: bool) -> (p: Self)
        requires
            source@.len() <= isize::MAX,
        ensures
            p@ == (PState {
                lex: initial_lex(source@),
                syms: Seq::empty(),
                code: Seq::empty(),
                data: initial_data(),
                ty: Type::Int,
                locals: 0,
                src,
                ready: false,
            }),
            p.wf(),
    {
        let mut data: Vec<u8> = Vec::new();
        data.push(72u8);
        data.push(101u8);
        data.push(108u8);
        data.push(108u8);
        data.push(111u8);
        data.push(32u8);
        data.push(119u8);
        data.push(111u8);
        data.push(114u8);
        data.push(108u8);
        data.push(100u8);
        data.push(33u8);
        data.push(10u8);
        data.push(0u8);
        data.push(0u8);
        data.push(0u8);
        assert(data@ =~= initial_data());
        let p = Parser {
            lexer: Lexer::new(source),
            symbols: Vec::new(),
            code: Vec::new(),
            data,
            current_type: Type::Int,
            locals: 0,
            _src: src,
            ready: false,
        };
        assert(p@.syms =~= Seq::<SymV>::empty());
        p
    }

    /// Adds a keyword to the symbol table.
    fn add_keyword(&mut self, name: &str, token_value: i64) -> (r: Result<(), String>)
        ensures
            r is Ok,
            final(self)@ == old(self)@.push_sym(fresh_sym(name@, SymbolClass::Num, Type::Int, token_value)),
    {
        let key = String::from_str(name);
        self.add_symbol_with_history(&key, SymbolClass::Num, Type::Int, token_value, None, None, None)
    }

    /// Adds a system call to the symbol table.
    fn add_syscall(&mut self, name: &str, id: i64) -> (r: Result<(), String>)
        ensures
            r is Ok,
            final(self)@ == old(self)@.push_sym(fresh_sym(name@, SymbolClass::Sys, Type::Int, id)),
    {
        let key = String::from_str(name);
        self.add_symbol_with_history(&key, SymbolClass::Sys, Type::Int, id, None, None, None)
    }

    /// Adds the keywords and system calls to the symbol table, and reads
    /// the first token.
    pub fn init(&mut self) -> (r: Result<(), String>)
        requires
            old(self).wf(),
        ensures
            r is Ok,
            final(self)@ == ps::init_state(old(self)@),
            final(self).wf(),
    {
        self.add_keyword("char", 134)?;
        self.add_keyword("else", 135)?;
        self.add_keyword("enum", 136)?;
        self.add_keyword("for", 137)?;
        self.add_keyword("if", 138)?;
        self.add_keyword("int", 139)?;
        self.add_keyword("return", 140)?;
        self.add_keyword("sizeof", 141)?;
        self.add_keyword("while", 142)?;
        self.add_keyword("void", 146)?;
        self.add_syscall("open", OpCode::OPEN as i64)?;
        self.add_syscall("read", OpCode::READ as i64)?;
        self.add_syscall("close", OpCode::CLOS as i64)?;
        self.add_syscall("printf", OpCode::PRTF as i64)?;
        self.add_syscall("malloc", OpCode::MALC as i64)?;
        self.add_syscall("free", OpCode::FREE as i64)?;
        self.add_syscall("memset", OpCode::MSET as i64)?;
        self.add_syscall("memcmp", OpCode::MCMP as i64)?;
        self.add_syscall("exit", OpCode::EXIT as i64)?;
        assert(self@.syms =~= old(self)@.syms + builtin_syms());
        self.ready = true;
        self.next();
        Ok(())
    }
}

impl<'a> Parser<'a> {
    pub(crate) fn pop_code(&mut self) -> (r: i64)
        requires
            old(self)@.code.len() >= 1,
        ensures
            final(self)@ == old(self)@.pop(),
            r == old(self)@.code.last(),
    {
        let r = self.code.pop().unwrap();
        assert(self@.code =~= old(self)@.code.drop_last());
        r
    }

    pub(crate) fn patch(&mut self, i: usize, v: i64)
        requires
            i < old(self)@.code.len(),
        ensures
            final(self)@ == old(self)@.patch(i as int, v),
    {
        self.code.set(i, v);
    }

    /// A copy of the code.
    pub(crate) fn copy_code(&self) -> (r: Vec<i64>)
        ensures
            r@ == self@.code,
    {
        let mut r: Vec<i64> = Vec::new();
        let mut i: usize = 0;
        while i < self.code.len()
            invariant
                i <= self.code@.len(),
                r@ == self.code@.subrange(0, i as int),
            decreases self.code@.len() - i,
        {
            r.push(self.code[i]);
            i += 1;
            assert(r@ =~= self.code@.subrange(0, i as int));
        }
        assert(self.code@.subrange(0, i as int) =~= self.code@);
        r
    }

    /// Appends `xs` to the code.
    pub(crate) fn emit_all(&mut self, xs: &Vec<i64>)
        ensures
            final(self)@ == old(self)@.emit(xs@),
    {
        let mut i: usize = 0;
        while i < xs.len()
            invariant
                i <= xs@.len(),
                self@ == old(self)@.emit(xs@.subrange(0, i as int)),
            decreases xs@.len() - i,
        {
            self.code.push(xs[i]);
            i += 1;
            assert(self@.code =~= old(self)@.code + xs@.subrange(0, i as int));
        }
        assert(xs@.subrange(0, i as int) =~= xs@);
    }

    /// Pads the data segment with zeros to a multiple of eight bytes.
    pub(crate) fn pad_data(&mut self)
        ensures
            final(self)@ == (PState { data: ps::pad8(old(self)@.data), ..old(self)@ }),
    {
        let ghost d = self@.data;
        let ghost k = ((8 - d.len() % 8) % 8) as nat;
        while self.data.len() % 8 != 0
            invariant
                d.len() <= self.data@.len() <= d.len() + k,
                k == (8 - d.len() % 8) % 8,
                self@ == (PState { data: d + Seq::new((self.data@.len() - d.len()) as nat, |i: int| 0u8), ..old(self)@ }),
            decreases d.len() + k - self.data@.len(),
        {
            let ghost before = self.data@;
            self.data.push(0u8);
            assert(self.data@ =~= d + Seq::new((self.data@.len() - d.len()) as nat, |i: int| 0u8));
        }
        assert(self.data@.len() == d.len() + k) by {
            assert(self.data@.len() % 8 == 0);
        }
    }

    /// `*` levels after a type.
    pub(crate) fn ptr_levels(&mut self, t0: Type) -> (r: Type)
        requires
            old(self).wf(),
        ensures
            (final(self)@, r) == ps::ptr_levels(old(self)@, t0),
            follows(old(self)@, final(self)@),
            final(self)@ == (PState { lex: final(self)@.lex, ..old(self)@ }),
    {
        let ghost start = t0;
        let mut t = t0;
        while self.token() == Token::Mul
            invariant
                self.wf(),
                ps::ptr_levels(self@, t) == ps::ptr_levels(old(self)@, start),
                follows(old(self)@, self@),
                self@ == (PState { lex: self@.lex, ..old(self)@ }),
            decreases self@.lex.measure(),
        {
            self.next();
            t = Type::Ptr(Box::new(t));
        }
        t
    }
}

impl<'a> Parser<'a> {
    /// A string literal starting at `p` in the string buffer.
    pub(crate) fn str_lit(&mut self, p: usize)
        requires
            old(self).wf(),
            old(self)@.tok() == Token::Str(p),
        ensures
            final(self)@ == ps::str_lit(old(self)@, p),
            follows(old(self)@, final(self)@),
            final(self)@.lex.measure() < old(self)@.lex.measure(),
            final(self)@.code.len() > old(self)@.code.len(),
    {
        proof {
            reveal(ps::str_lit);
        }
        let ghost s0 = self@;
        let str_start = self.data.len();
        let buf = self.lexer.string_buffer();
        let mut i = p;
        while i < buf.len() && buf[i] != 0
            invariant
                p <= i <= buf@.len(),
                buf@ == s0.lex.buf,
                ps::zero_at(buf@, p as int) == ps::zero_at(buf@, i as int),
                self@ == (PState { data: s0.data + buf@.subrange(p as int, i as int), ..s0 }),
            decreases buf@.len() - i,
        {
            self.data.push(buf[i]);
            i += 1;
            assert(self.data@ =~= s0.data + buf@.subrange(p as int, i as int));
        }
        self.data.push(0u8);
        assert(self.data@ =~= s0.data + buf@.subrange(p as int, ps::zero_at(buf@, p as int)) + seq![0u8]);
        self.pad_data();
        self.emit2(OpCode::IMM as i64, #[verifier::truncate] (str_start as i64));
        self.next();
        let ghost s1 = self@;
        loop
            invariant
                self.wf(),
                ps::skip_strs(self@) == ps::skip_strs(s1),
                follows(s1, self@),
                self@ == (PState { lex: self@.lex, ..s1 }),
            ensures
                !(self@.tok() is Str),
            decreases self@.lex.measure(),
        {
            match self.token() {
                Token::Str(_) => {
                    self.next();
                },
                _ => break,
            }
        }
        assert(ps::skip_strs(self@) == self@);
        self.set_type(Type::Ptr(Box::new(Type::Char)));
    }

}

impl<'a> Parser<'a> {
    pub(crate) fn code_len(&self) -> (n: usize)
        ensures
            n == self@.code.len(),
    {
        self.code.len()
    }

    pub(crate) fn code_at(&self, i: usize) -> (v: i64)
        requires
            i < self@.code.len(),
        ensures
            v == self@.code[i as int],
    {
        self.code[i]
    }

    /// The type of the last expression.
    pub(crate) fn type_of(&self) -> (t: Type)
        ensures
            t == self@.ty,
    {
        self.current_type.clone()
    }

    /// The character after the current token.
    pub(crate) fn peek_char(&self) -> (c: Option<char>)
        ensures
            c == crate::lexer::char_at(self@.lex.chars, self@.lex.pos as int),
    {
        self.lexer.peek_next()
    }

    /// The value of the current number literal.
    pub(crate) fn lex_value(&self) -> (v: i64)
        ensures
            v == self@.lex.value,
    {
        self.lexer.value()
    }

    /// The class, value and type of symbol `i`.
    pub(crate) fn sym_entry(&self, i: usize) -> (e: (SymbolClass, i64, Type))
        requires
            i < self@.syms.len(),
        ensures
            e.0 == self@.syms[i as int].class,
            e.1 == self@.syms[i as int].value,
            e.2 == self@.syms[i as int].typ,
    {
        (self.symbols[i].class, self.symbols[i].value, self.symbols[i].typ.clone())
    }
}

impl<'a> Parser<'a> {
    /// The current line.
    pub(crate) fn line_now(&self) -> (l: usize)
        ensures
            l == self@.lex.line,
    {
        self.lexer.line()
    }

    /// Whether the symbol table has been set up.
    pub(crate) fn is_ready(&self) -> (b: bool)
        ensures
            b == self@.ready,
    {
        self.ready
    }

    /// The count of local slots.
    pub(crate) fn locals_now(&self) -> (n: usize)
        ensures
            n == self@.locals,
    {
        self.locals
    }

    /// Sets the count of local slots.
    pub(crate) fn set_locals(&mut self, n: usize)
        requires
            n + old(self)@.lex.measure() <= old(self)@.lex.chars.len() + 1,
            old(self).wf(),
        ensures
            final(self)@ == old(self)@.with_locals(n),
            final(self).wf(),
    {
        self.locals = n;
    }

    /// Takes a local slot for the identifier that is the current token,
    /// and reads the next token.
    pub(crate) fn take_local(&mut self)
        requires
            old(self).wf(),
            old(self)@.tok() != Token::Eof,
        ensures
            final(self)@ == old(self)@.with_locals((old(self)@.locals + 1) as usize).adv(),
            follows(old(self)@, final(self)@),
            shrinks(final(self)@, old(self)@),
    {
        proof {
            lemma_adv(self@);
            crate::lexer::lemma_advance(self@.lex);
            crate::lexer::lemma_advance_lt_gt(self@.lex);
        }
        self.locals = self.locals + 1;
        self.lexer.next();
    }
}

impl<'a> Parser<'a> {
    pub(crate) fn data_len(&self) -> (n: usize)
        ensures
            n == self@.data.len(),
    {
        self.data.len()
    }

    /// Resizes the data segment to `n` bytes, cutting it or adding zeros.
    pub(crate) fn resize_data(&mut self, n: usize)
        ensures
            final(self)@ == (PState { data: ps::resized(old(self)@.data, n), ..old(self)@ }),
    {
        if n <= self.data.len() {
            self.data.truncate(n);
        } else {
            let ghost d = self.data@;
            while self.data.len() < n
                invariant
                    d.len() <= self.data@.len() <= n,
                    self@ == (PState { data: d + Seq::new((self.data@.len() - d.len()) as nat, |i: int| 0u8), ..old(self)@ }),
                decreases n - self.data@.len(),
            {
                self.data.push(0u8);
                assert(self.data@ =~= d + Seq::new((self.data@.len() - d.len()) as nat, |i: int| 0u8));
            }
        }
    }

    /// A copy of the data segment.
    pub(crate) fn copy_data(&self) -> (r: Vec<u8>)
        ensures
            r@ == self@.data,
    {
        let mut r: Vec<u8> = Vec::new();
        let mut i: usize = 0;
        while i < self.data.len()
            invariant
                i <= self.data@.len(),
                r@ == self.data@.subrange(0, i as int),
            decreases self.data@.len() - i,
        {
            r.push(self.data[i]);
            i += 1;
            assert(r@ =~= self.data@.subrange(0, i as int));
        }
        assert(self.data@.subrange(0, i as int) =~= self.data@);
        r
    }
}

/// A found variable as a value.
pub open spec fn var_view(r: Option<(String, Type, i64, SymbolClass)>) -> Option<(Seq<char>, Type, i64, SymbolClass)> {
    match r {
        Some((n, t, v, c)) => Some((n@, t, v, c)),
        None => None,
    }
}

impl<'a> Parser<'a> {
    /// The index of the first symbol of class `c` and value `v`.
    fn first_with(&self, c: SymbolClass, v: i64) -> (r: Option<usize>)
        ensures
            match r {
                Some(i) => ps::first_with_from(self@.syms, c, v, 0) == Some(i as int) && i < self@.syms.len()
                    && self@.syms[i as int].class == c && self@.syms[i as int].value == v,
                None => ps::first_with_from(self@.syms, c, v, 0) is None,
            },
    {
        let mut i: usize = 0;
        while i < self.symbols.len()
            invariant
                i <= self.symbols@.len(),
                ps::first_with_from(self@.syms, c, v, 0) == ps::first_with_from(self@.syms, c, v, i as int),
            decreases self.symbols@.len() - i,
        {
            if self.symbols[i].class == c && self.symbols[i].value == v {
                return Some(i);
            }
            i += 1;
        }
        None
    }

    /// The variable whose load the code ends with, if it can be told.
    #[allow(dead_code)]
    fn extract_last_variable(&self) -> (r: Option<(String, Type, i64, SymbolClass)>)
        ensures
            var_view(r) == ps::last_variable(self@),
    {
        let n = self.code.len();
        if n < 1 {
            return None;
        }
        let last_code = self.code[n - 1];
        if last_code == OpCode::LI as i64 || last_code == OpCode::LC as i64 {
            if n >= 3 {
                let prev_inst = self.code[n - 3];
                let operand = self.code[n - 2];
                if prev_inst == OpCode::LEA as i64 {
                    if let Some(i) = self.first_with(SymbolClass::Loc, operand) {
                        let sym = &self.symbols[i];
                        return Some((sym.name.clone(), sym.typ.clone(), sym.value, SymbolClass::Loc));
                    }
                } else if prev_inst == OpCode::IMM as i64 {
                    if let Some(i) = self.first_with(SymbolClass::Glo, operand) {
                        let sym = &self.symbols[i];
                        return Some((sym.name.clone(), sym.typ.clone(), sym.value, SymbolClass::Glo));
                    }
                }
            }
        }
        match self.first_with(SymbolClass::Loc, 0) {
            Some(i) => {
                let sym = &self.symbols[i];
                Some((sym.name.clone(), sym.typ.clone(), 0, SymbolClass::Loc))
            },
            None => None,
        }
    }
}

} // verus!
