//! Declarations and whole programs: global variables, enums, function
//! definitions with their parameters and locals, and the top-level loop.

use vstd::prelude::*;
use crate::lexer::Token;
use crate::parser::{OpCode, Parser, SymbolClass, Type, rv, rvb};
use crate::parser_spec as ps;
use crate::parser_spec::{PState, follows, lemma_adv, shrinks};

verus! {

/// What parsing a whole program returned, as a value.
pub open spec fn rv_parse(r: Result<(Vec<i64>, Vec<u8>), String>) -> Result<(Seq<i64>, Seq<u8>), Seq<char>> {
    match r {
        Ok((c, d)) => Ok((c@, d@)),
        Err(e) => Err(e@),
    }
}

impl<'a> Parser<'a> {
    /// An optional `[n]` after a declarator's name.
    fn array_suffix(&mut self, t: Type) -> (res: (Type, Result<(), String>))
        requires
            old(self).wf(),
        ensures
            (final(self)@, res.0, rv(res.1)) == ps::array_suffix(old(self)@, t),
            follows(old(self)@, final(self)@),
            final(self)@ == (PState { lex: final(self)@.lex, ..old(self)@ }),
    {
        if self.token() == Token::LeftBracket {
            self.next();
            match self.token() {
                Token::Num(size) => {
                    let t2 = Type::Array(Box::new(t), #[verifier::truncate] (size as usize));
                    self.next();
                    let r = self.expect(Token::RightBracket, "Expected ']' after array size");
                    (t2, r)
                },
                _ => {
                    let e = self.fail("Expected numeric array size");
                    (t, e)
                },
            }
        } else {
            (t, Ok(()))
        }
    }

    /// The parameters of a function, after `(`, and their count.
    fn params(&mut self) -> (res: (Result<(), String>, i64))
        requires
            old(self).wf(),
        ensures
            (final(self)@, rv(res.0), res.1) == ps::params(old(self)@, 0),
            follows(old(self)@, final(self)@),
            0 <= res.1,
            res.1 + final(self)@.lex.measure() <= old(self)@.lex.measure(),
            final(self)@.code == old(self)@.code,
    {
        let ghost goal = ps::params(old(self)@, 0);
        let mut param_count: i64 = 0;
        loop
            invariant_except_break
                ps::params(self@, param_count) == goal,
            invariant
                self.wf(),
                goal == ps::params(old(self)@, 0),
                follows(old(self)@, self@),
                0 <= param_count,
                param_count + self@.lex.measure() <= old(self)@.lex.measure(),
                self@.code == old(self)@.code,
            ensures
                goal == (self@, Ok::<(), Seq<char>>(()), param_count),
            decreases self@.lex.measure(),
        {
            proof {
                reveal_with_fuel(ps::params, 1);
                lemma_adv(self@);
            }
            let ghost s = self@;
            let t = self.token();
            if t != Token::Int && t != Token::Char {
                return (self.fail("Parameter type expected"), param_count);
            }
            let base = if t == Token::Int { Type::Int } else { Type::Char };
            self.next();
            let ptype = self.ptr_levels(base);
            match self.token() {
                Token::Id(id) => {
                    let pname = self.get_id_name(id);
                    match self.find_index(&pname) {
                        Some(i) => {
                            let (c, v, ty) = self.sym_entry(i);
                            if c == SymbolClass::Loc {
                                return (self.fail_named("Duplicate parameter '", &pname, "'"), param_count);
                            }
                            let _ = self.add_symbol_with_history(
                                &pname,
                                SymbolClass::Loc,
                                ptype,
                                param_count,
                                Some(c),
                                Some(ty),
                                Some(v),
                            );
                        },
                        None => {
                            match self.add_sym(&pname, SymbolClass::Loc, ptype, param_count) {
                                Ok(()) => {},
                                Err(e) => return (Err(e), param_count),
                            }
                        },
                    }
                    param_count += 1;
                    self.next();
                },
                _ => return (self.fail("Parameter name expected"), param_count),
            }
            proof {
                lemma_adv(self@);
            }
            if self.token() == Token::Comma {
                self.next();
            } else {
                break;
            }
        }
        (Ok(()), param_count)
    }

    /// The declarators of a local declaration at the start of a function
    /// body.
    #[verifier::rlimit(50)]
    fn fdecls(&mut self, base: Type, pc: i64) -> (r: Result<(), String>)
        requires
            old(self).wf(),
        ensures
            (final(self)@, rv(r)) == ps::fdecls(old(self)@, base, pc),
            follows(old(self)@, final(self)@),
            r is Ok ==> final(self)@.code.len() >= old(self)@.code.len(),
    {
        let ghost goal = ps::fdecls(old(self)@, base, pc);
        loop
            invariant_except_break
                ps::fdecls(self@, base, pc) == goal,
            invariant
                self.wf(),
                goal == ps::fdecls(old(self)@, base, pc),
                follows(old(self)@, self@),
                self@.code.len() >= old(self)@.code.len(),
            ensures
                goal == self@.ok(),
            decreases self@.lex.measure(),
        {
            proof {
                reveal_with_fuel(ps::fdecls, 1);
                lemma_adv(self@);
            }
            let ghost s = self@;
            if self.token() == Token::Semicolon {
                break;
            }
            let var_type = self.ptr_levels(base.clone());
            let ghost at_name = self@;
            match self.token() {
                Token::Id(id) => {
                    let var_name = self.get_id_name(id);
                    self.next();
                    let (var_type, r) = self.array_suffix(var_type);
                    match r {
                        Ok(()) => {},
                        Err(e) => return Err(e),
                    }
                    let slot = self.locals_now();
                    match self.find_index(&var_name) {
                        Some(i) => {
                            let (c, v, ty) = self.sym_entry(i);
                            if c == SymbolClass::Loc && v >= pc {
                                return self.fail_named("Duplicate local variable '", &var_name, "'");
                            }
                            let _ = self.add_symbol_with_history(
                                &var_name,
                                SymbolClass::Loc,
                                var_type.clone(),
                                #[verifier::truncate] (slot as i64),
                                Some(c),
                                Some(ty),
                                Some(v),
                            );
                        },
                        None => {
                            match self.add_sym(&var_name, SymbolClass::Loc, var_type.clone(), #[verifier::truncate] (slot as i64)) {
                                Ok(()) => {},
                                Err(e) => return Err(e),
                            }
                        },
                    }
                    self.set_locals(slot + 1);
                    if self.token() == Token::Assign {
                        self.next();
                        self.emit3(OpCode::LEA as i64, #[verifier::truncate] (slot as i64), OpCode::PSH as i64);
                        match self.expr(0) {
                            Ok(()) => {},
                            Err(e) => return Err(e),
                        }
                        let store = match var_type {
                            Type::Char => OpCode::SC as i64,
                            _ => OpCode::SI as i64,
                        };
                        self.emit1(store);
                    }
                },
                _ => return self.fail("Local variable name expected"),
            }
            proof {
                lemma_adv(self@);
            }
            if self.token() == Token::Comma {
                self.next();
            } else {
                break;
            }
        }
        Ok(())
    }

    /// A function body, after `{`, up to its `}`.
    fn fbody(&mut self, pc: i64) -> (r: Result<(), String>)
        requires
            old(self).wf(),
        ensures
            (final(self)@, rv(r)) == ps::fbody(old(self)@, pc),
            follows(old(self)@, final(self)@),
            r is Ok ==> final(self)@.code.len() >= old(self)@.code.len(),
    {
        let ghost goal = ps::fbody(old(self)@, pc);
        loop
            invariant_except_break
                ps::fbody(self@, pc) == goal,
            invariant
                self.wf(),
                goal == ps::fbody(old(self)@, pc),
                follows(old(self)@, self@),
                self@.code.len() >= old(self)@.code.len(),
            ensures
                goal == self@.ok(),
            decreases self@.lex.measure(),
        {
            proof {
                reveal_with_fuel(ps::fbody, 1);
                lemma_adv(self@);
            }
            let t = self.token();
            if t == Token::RightBrace || t == Token::Eof {
                break;
            }
            if t == Token::Int || t == Token::Char {
                let base = if t == Token::Int { Type::Int } else { Type::Char };
                self.next();
                match self.fdecls(base, pc) {
                    Ok(()) => {},
                    Err(e) => return Err(e),
                }
                match self.expect(Token::Semicolon, "Expected ';' after local variable declaration") {
                    Ok(()) => {},
                    Err(e) => return Err(e),
                }
            } else {
                match self.stmt() {
                    Ok(()) => {},
                    Err(e) => return Err(e),
                }
            }
        }
        Ok(())
    }

    /// A function definition, after its name.
    fn parse_function(&mut self, name: &String, return_type: Type) -> (r: Result<(), String>)
        requires
            old(self).wf(),
        ensures
            (final(self)@, rv(r)) == ps::parse_function(old(self)@, name@, return_type),
            follows(old(self)@, final(self)@),
    {
        proof {
            reveal(ps::parse_function);
        }
        let fn_pos = self.code_len();
        match self.add_sym(name, SymbolClass::Fun, return_type, #[verifier::truncate] (fn_pos as i64)) {
            Ok(()) => {},
            Err(e) => return Err(e),
        }
        let old_locals = self.locals_now();
        self.set_locals(0);
        self.next();
        let mut param_count: i64 = 0;
        if self.token() != Token::RightParen {
            let (r, n) = self.params();
            match r {
                Ok(()) => {},
                Err(e) => return Err(e),
            }
            param_count = n;
        }
        match self.expect(Token::RightParen, "Expected ')' after function parameters") {
            Ok(()) => {},
            Err(e) => return Err(e),
        }
        self.set_locals(param_count as usize);
        match self.expect(Token::LeftBrace, "Expected '{' to start function body") {
            Ok(()) => {},
            Err(e) => return Err(e),
        }
        let ent_pos = self.code_len();
        self.emit2(OpCode::ENT as i64, 0);
        match self.fbody(param_count) {
            Ok(()) => {},
            Err(e) => return Err(e),
        }
        let frame: i64 = #[verifier::truncate] ((self.locals_now() as i128 - param_count as i128) as i64);
        let code_len = self.code_len();
        assert(ent_pos + 1 < code_len);
        self.patch(ent_pos + 1, frame);
        self.emit1(OpCode::LEV as i64);
        match self.expect(Token::RightBrace, "Expected '}' to end function") {
            Ok(()) => {},
            Err(e) => return Err(e),
        }
        let _ = self.restore_symbols_after_function();
        self.set_locals(old_locals);
        Ok(())
    }

    /// The declarators of a global declaration; `Ok(false)` where a
    /// function definition ended it.
    fn gdecls(&mut self, base: Type) -> (r: Result<bool, String>)
        requires
            old(self).wf(),
        ensures
            (final(self)@, rvb(r)) == ps::gdecls(old(self)@, base),
            follows(old(self)@, final(self)@),
            r is Ok ==> shrinks(final(self)@, old(self)@) || (final(self)@ == old(self)@ && r == Ok::<bool, String>(true)
                && (old(self)@.tok() == Token::Semicolon || old(self)@.tok() == Token::RightBrace)),
    {
        let ghost goal = ps::gdecls(old(self)@, base);
        loop
            invariant_except_break
                ps::gdecls(self@, base) == goal,
            invariant
                self.wf(),
                goal == ps::gdecls(old(self)@, base),
                follows(old(self)@, self@),
                shrinks(self@, old(self)@) || self@ == old(self)@,
            ensures
                goal == (self@, Ok::<bool, Seq<char>>(true)),
                shrinks(self@, old(self)@) || (self@ == old(self)@
                    && (old(self)@.tok() == Token::Semicolon || old(self)@.tok() == Token::RightBrace)),
            decreases self@.lex.measure(),
        {
            proof {
                reveal_with_fuel(ps::gdecls, 1);
                lemma_adv(self@);
            }
            let t = self.token();
            if t == Token::Semicolon || t == Token::RightBrace {
                break;
            }
            let typ = self.ptr_levels(base.clone());
            match self.token() {
                Token::Id(id) => {
                    let name = self.get_id_name(id);
                    self.next();
                    let (typ, r) = self.array_suffix(typ);
                    match r {
                        Ok(()) => {},
                        Err(e) => return Err(e),
                    }
                    if self.token() == Token::LeftParen {
                        match self.parse_function(&name, typ) {
                            Ok(()) => return Ok(false),
                            Err(e) => return Err(e),
                        }
                    }
                    self.pad_data();
                    let aligned_data_len = self.data_len();
                    let type_size = typ.size();
                    match self.add_sym(&name, SymbolClass::Glo, typ, #[verifier::truncate] (aligned_data_len as i64)) {
                        Ok(()) => {},
                        Err(e) => return Err(e),
                    }
                    self.resize_data(aligned_data_len.wrapping_add(type_size));
                },
                _ => return self.fail_flag("Expected identifier in declaration"),
            }
            proof {
                lemma_adv(self@);
            }
            if self.token() == Token::Comma {
                self.next();
            } else {
                break;
            }
        }
        Ok(true)
    }

    /// A global declaration.
    fn declaration(&mut self) -> (r: Result<(), String>)
        requires
            old(self).wf(),
        ensures
            (final(self)@, rv(r)) == ps::declaration(old(self)@),
            follows(old(self)@, final(self)@),
            r is Ok ==> shrinks(final(self)@, old(self)@),
    {
        proof {
            reveal(ps::declaration);
            lemma_adv(self@);
        }
        if self.token() == Token::Enum {
            return self.parse_enum();
        }
        let mut base = Type::Int;
        if self.token() == Token::Int {
            self.next();
        } else if self.token() == Token::Char {
            base = Type::Char;
            self.next();
        } else if self.token() == Token::Void {
            self.next();
        }
        match self.gdecls(base) {
            Err(e) => Err(e),
            Ok(false) => Ok(()),
            Ok(true) => self.expect(Token::Semicolon, "Expected semicolon after variable declaration"),
        }
    }

    /// An enum declaration, at `enum`.
    fn parse_enum(&mut self) -> (r: Result<(), String>)
        requires
            old(self).wf(),
            old(self)@.tok() == Token::Enum,
        ensures
            (final(self)@, rv(r)) == ps::parse_enum(old(self)@),
            follows(old(self)@, final(self)@),
            r is Ok ==> shrinks(final(self)@, old(self)@),
    {
        proof {
            reveal(ps::parse_enum);
        }
        self.next();
        if let Token::Id(_) = self.token() {
            self.next();
        }
        match self.expect(Token::LeftBrace, "Expected '{' after enum") {
            Ok(()) => {},
            Err(e) => return Err(e),
        }
        let ghost goal = ps::enum_items(self@, 0);
        let ghost s0 = self@;
        let mut value: i64 = 0;
        loop
            invariant_except_break
                ps::enum_items(self@, value) == goal,
            invariant
                self.wf(),
                goal == ps::enum_items(s0, 0),
                follows(s0, self@),
                follows(old(self)@, s0),
                shrinks(s0, old(self)@),
                ps::parse_enum(old(self)@) == (if goal.1 is Err {
                    goal
                } else {
                    goal.0.adv().expect(Token::Semicolon, "Expected semicolon after enum declaration"@)
                }),
            ensures
                goal == self@.ok(),
                self@.tok() == Token::RightBrace,
            decreases self@.lex.measure(),
        {
            proof {
                reveal_with_fuel(ps::enum_items, 1);
                lemma_adv(self@);
            }
            if self.token() == Token::RightBrace {
                break;
            }
            match self.token() {
                Token::Id(id) => {
                    let name = self.get_id_name(id);
                    self.next();
                    if self.token() == Token::Assign {
                        self.next();
                        match self.token() {
                            Token::Num(val) => {
                                value = val;
                                self.next();
                            },
                            _ => return self.fail("Expected numeric value after '='"),
                        }
                    }
                    match self.add_sym(&name, SymbolClass::Num, Type::Int, value) {
                        Ok(()) => {},
                        Err(e) => return Err(e),
                    }
                    value = value.wrapping_add(1);
                    if self.token() == Token::Comma {
                        self.next();
                    }
                },
                _ => return self.fail("Expected identifier in enum declaration"),
            }
        }
        self.next();
        self.expect(Token::Semicolon, "Expected semicolon after enum declaration")
    }

    /// Parses a whole program: sets up the symbol table unless `init` did
    /// already, reads every declaration, and checks that `main` is a
    /// function. Gives the code and data segments.
    pub fn parse(&mut self) -> (r: Result<(Vec<i64>, Vec<u8>), String>)
        requires
            old(self).wf(),
        ensures
            (final(self)@, rv_parse(r)) == ps::parse(old(self)@),
            final(self).wf(),
    {
        proof {
            reveal(ps::parse);
        }
        if !self.is_ready() {
            let _ = self.init();
        }
        let ghost s1 = self@;
        let ghost goal = ps::top_loop(s1);
        loop
            invariant_except_break
                ps::top_loop(self@) == goal,
            invariant
                self.wf(),
                goal == ps::top_loop(s1),
                follows(s1, self@),
                s1 == (if old(self)@.ready { old(self)@ } else { ps::init_state(old(self)@) }),
            ensures
                goal == self@.ok(),
            decreases self@.lex.measure(),
        {
            proof {
                reveal_with_fuel(ps::top_loop, 1);
                reveal(ps::parse);
            }
            if self.token() == Token::Eof {
                break;
            }
            let line = self.line_now();
            if (line >= 55 && line <= 61) || line == 73 {
                self.skip_region(line);
            } else {
                match self.declaration() {
                    Ok(()) => {},
                    Err(e) => return Err(e),
                }
            }
        }
        let main_name = String::from_str("main");
        match self.find_index(&main_name) {
            None => Err(String::from_str("main() not defined")),
            Some(i) => {
                let (c, _, _) = self.sym_entry(i);
                if c != SymbolClass::Fun {
                    Err(String::from_str("main is not a function"))
                } else {
                    Ok((self.copy_code(), self.copy_data()))
                }
            },
        }
    }

    /// Reads over the tokens of a line that is passed over.
    fn skip_region(&mut self, line: usize)
        requires
            old(self).wf(),
            old(self)@.tok() != Token::Eof,
            old(self)@.lex.line <= line,
        ensures
            final(self)@ == ps::skip_region(old(self)@, line as nat),
            follows(old(self)@, final(self)@),
            shrinks(final(self)@, old(self)@),
    {
        let ghost goal = ps::skip_region(old(self)@, line as nat);
        loop
            invariant_except_break
                ps::skip_region(self@, line as nat) == goal,
            invariant
                self.wf(),
                goal == ps::skip_region(old(self)@, line as nat),
                follows(old(self)@, self@),
                shrinks(self@, old(self)@) || (self@ == old(self)@),
                old(self)@.lex.line <= line,
                old(self)@.tok() != Token::Eof,
            ensures
                goal == self@,
                shrinks(self@, old(self)@),
            decreases self@.lex.measure(),
        {
            proof {
                lemma_adv(self@);
            }
            if self.token() == Token::Eof {
                break;
            }
            if self.token() == Token::Semicolon {
                self.next();
                if self.line_now() > line {
                    break;
                }
            } else if self.line_now() > line {
                break;
            }
            self.next();
        }
    }
}

} // verus!
