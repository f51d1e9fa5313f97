//! Expressions: operands, unary and binary operators, calls, and the
//! code that evaluates them.

use vstd::prelude::*;
use crate::lexer::Token;
use crate::parser::{OpCode, Parser, SymbolClass, Type, rv, rvb, type_debug};
use crate::parser_spec as ps;
use crate::parser_spec::{follows, lemma_adv, line_msg, shrinks};

verus! {

/// The load instruction for a value of type `t`.
fn load_op_of(t: &Type) -> (r: i64)
    ensures
        r == ps::load_op(*t),
{
    match t {
        Type::Char => OpCode::LC as i64,
        _ => OpCode::LI as i64,
    }
}

/// The store instruction for a value of type `t`.
fn store_op_of(t: &Type) -> (r: i64)
    ensures
        r == ps::store_op(*t),
{
    match t {
        Type::Char => OpCode::SC as i64,
        _ => OpCode::SI as i64,
    }
}

/// The step of `++` and `--` on a value of type `t`.
fn step_size_of(t: &Type) -> (r: i64)
    ensures
        r == ps::step_size(*t),
{
    if t.is_ptr() {
        match t.base_type() {
            Some(b) => b.size() as i64,
            None => 1,
        }
    } else {
        1
    }
}

impl<'a> Parser<'a> {
    /// `sizeof(type)`, after `sizeof`.
    fn sizeof_expr(&mut self) -> (r: Result<(), String>)
        requires
            old(self).wf(),
        ensures
            (final(self)@, rv(r)) == ps::sizeof_expr(old(self)@),
            follows(old(self)@, final(self)@),
            r is Ok ==> final(self)@.code.len() > old(self)@.code.len(),
    {
        proof {
            reveal(ps::sizeof_expr);
        }
        match self.expect(Token::LeftParen, "Expected '(' after sizeof") {
            Ok(()) => {},
            Err(e) => return Err(e),
        }
        let mut typ = Type::Int;
        if self.token() == Token::Int {
            self.next();
        } else if self.token() == Token::Char {
            self.next();
            typ = Type::Char;
        }
        let typ = self.ptr_levels(typ);
        match self.expect(Token::RightParen, "Expected ')' after type in sizeof") {
            Ok(()) => {},
            Err(e) => return Err(e),
        }
        self.emit2(OpCode::IMM as i64, #[verifier::truncate] (typ.size() as i64));
        self.set_type(Type::Int);
        Ok(())
    }

    /// Parses an expression whose binary operators bind tighter than
    /// `prec`, and emits its code.
    pub fn expr(&mut self, prec: u8) -> (r: Result<(), String>)
        requires
            old(self).wf(),
        ensures
            (final(self)@, rv(r)) == ps::expr(old(self)@, prec),
            follows(old(self)@, final(self)@),
            r is Ok ==> shrinks(final(self)@, old(self)@),
            r is Ok ==> final(self)@.code.len() >= old(self)@.code.len(),
        decreases old(self)@.lex.measure(), 4nat,
    {
        proof {
            ps::lemma_expr_unfold(self@, prec);
        }
        proof {
            reveal_with_fuel(ps::expr, 1);
            reveal_with_fuel(ps::ops, 1);
        }
        match self.primary() {
            Err(e) => return Err(e),
            Ok(false) => return Ok(()),
            Ok(true) => {},
        }
        let ghost s1 = self@;
        loop
            invariant
                self.wf(),
                ps::ops(self@, prec) == ps::ops(s1, prec),
                follows(s1, self@),
                shrinks(s1, old(self)@),
                follows(old(self)@, s1),
                ps::expr(old(self)@, prec) == ps::ops(s1, prec),
                self@.code.len() >= old(self)@.code.len(),
            decreases self@.lex.measure(),
        {
            proof {
                ps::lemma_ops_unfold(self@, prec);
            }
            let t = self.token();
            if self.precedence_of(t) <= prec {
                return Ok(());
            }
            let op_type = self.type_of();
            let ghost pre = self@;
            self.next();
            match self.binop(t, op_type) {
                Err(e) => return Err(e),
                Ok(()) => {},
            }
        }
    }

    /// An operand; `Ok(false)` ends the whole expression there.
    fn primary(&mut self) -> (r: Result<bool, String>)
        requires
            old(self).wf(),
        ensures
            (final(self)@, rvb(r)) == ps::primary(old(self)@),
            follows(old(self)@, final(self)@),
            r is Ok ==> shrinks(final(self)@, old(self)@),
            r is Ok ==> final(self)@.code.len() >= old(self)@.code.len(),
        decreases old(self)@.lex.measure(), 3nat,
    {
        proof {
            reveal_with_fuel(ps::primary, 1);
            reveal_with_fuel(ps::expr, 1);
            reveal_with_fuel(ps::ident, 1);
            reveal_with_fuel(ps::deref, 1);
            reveal_with_fuel(ps::addr_of, 1);
            reveal_with_fuel(ps::unary_tail, 1);
            reveal_with_fuel(ps::negate, 1);
            reveal_with_fuel(ps::pre_step, 1);
            reveal_with_fuel(ps::paren, 1);
            reveal_with_fuel(ps::lt_gt, 1);
        }
        proof {
            lemma_adv(self@);
        }
        match self.token() {
            Token::Num(val) => {
                self.emit2(OpCode::IMM as i64, val);
                self.next();
                self.set_type(Type::Int);
                Ok(true)
            },
            Token::Str(p) => {
                self.str_lit(p);
                Ok(true)
            },
            Token::Sizeof => {
                self.next();
                match self.sizeof_expr() {
                    Ok(()) => Ok(true),
                    Err(e) => Err(e),
                }
            },
            Token::Id(id) => {
                let name = self.get_id_name(id);
                self.next();
                match self.ident(&name) {
                    Ok(()) => Ok(true),
                    Err(e) => Err(e),
                }
            },
            Token::Mul => {
                self.next();
                match self.deref() {
                    Ok(()) => Ok(true),
                    Err(e) => Err(e),
                }
            },
            Token::And => {
                self.next();
                self.addr_of()
            },
            Token::Not => {
                self.next();
                match self.unary_tail(OpCode::PSH as i64, OpCode::IMM as i64, 0, OpCode::EQ as i64) {
                    Ok(()) => Ok(true),
                    Err(e) => Err(e),
                }
            },
            Token::Tilde => {
                self.next();
                match self.unary_tail(OpCode::PSH as i64, OpCode::IMM as i64, -1, OpCode::XOR as i64) {
                    Ok(()) => Ok(true),
                    Err(e) => Err(e),
                }
            },
            Token::Add => {
                self.next();
                match self.expr(11) {
                    Ok(()) => Ok(true),
                    Err(e) => Err(e),
                }
            },
            Token::Sub => {
                self.next();
                match self.negate() {
                    Ok(()) => Ok(true),
                    Err(e) => Err(e),
                }
            },
            Token::Inc | Token::Dec => {
                let inc = self.token() == Token::Inc;
                self.next();
                match self.pre_step(inc) {
                    Ok(()) => Ok(true),
                    Err(e) => Err(e),
                }
            },
            Token::LeftParen => {
                self.next();
                match self.paren() {
                    Ok(()) => Ok(true),
                    Err(e) => Err(e),
                }
            },
            Token::Lt => {
                match self.lt_gt(true) {
                    Ok(()) => Ok(true),
                    Err(e) => Err(e),
                }
            },
            Token::Gt => {
                match self.lt_gt(false) {
                    Ok(()) => Ok(true),
                    Err(e) => Err(e),
                }
            },
            _ => self.fail_flag("Expected expression"),
        }
    }

    /// An identifier, after it: a call or a variable.
    fn ident(&mut self, name: &String) -> (r: Result<(), String>)
        requires
            old(self).wf(),
        ensures
            (final(self)@, rv(r)) == ps::ident(old(self)@, name@),
            follows(old(self)@, final(self)@),
            r is Ok ==> final(self)@.code.len() > old(self)@.code.len(),
        decreases old(self)@.lex.measure(), 5nat,
    {
        proof {
            reveal_with_fuel(ps::ident, 1);
            reveal_with_fuel(ps::call, 1);
            reveal_with_fuel(ps::variable, 1);
        }
        proof {
            lemma_adv(self@);
        }
        if self.token() == Token::LeftParen {
            self.next();
            self.call(name)
        } else {
            self.variable(name)
        }
    }

    /// The arguments of a call, each pushed on the stack, and their count.
    fn call_args(&mut self) -> (res: (Result<(), String>, usize))
        requires
            old(self).wf(),
        ensures
            (final(self)@, rv(res.0), res.1) == ps::call_args(old(self)@, 0),
            follows(old(self)@, final(self)@),
            res.0 is Ok ==> final(self)@.code.len() >= old(self)@.code.len() + res.1,
            res.1 <= old(self)@.lex.measure(),
        decreases old(self)@.lex.measure(), 5nat,
    {
        let ghost s0 = self@;
        let ghost goal = ps::call_args(s0, 0);
        let mut arg_count: usize = 0;
        loop
            invariant_except_break
                ps::call_args(self@, arg_count) == goal,
            invariant
                self.wf(),
                goal == ps::call_args(s0, 0),
                s0 == old(self)@,
                follows(s0, self@),
                arg_count + self@.lex.measure() <= s0.lex.measure(),
                self@.code.len() >= s0.code.len() + arg_count,
            ensures
                goal == (self@, Ok::<(), Seq<char>>(()), arg_count),
            decreases self@.lex.measure(),
        {
            proof {
                ps::lemma_call_args_unfold(self@, arg_count);
            }
            match self.expr(0) {
                Ok(()) => {},
                Err(e) => return (Err(e), arg_count),
            }
            self.emit1(OpCode::PSH as i64);
            arg_count += 1;
            if self.token() != Token::Comma {
                break;
            }
            self.next();
        }
        (Ok(()), arg_count)
    }

    /// The arguments of a call and the call, after `(`.
    #[verifier::rlimit(50)]
    fn call(&mut self, name: &String) -> (r: Result<(), String>)
        requires
            old(self).wf(),
        ensures
            (final(self)@, rv(r)) == ps::call(old(self)@, name@),
            follows(old(self)@, final(self)@),
            r is Ok ==> final(self)@.code.len() > old(self)@.code.len(),
        decreases old(self)@.lex.measure(), 6nat,
    {
        proof {
            ps::lemma_call_unfold(self@, name@);
        }
        proof {
            reveal_with_fuel(ps::call, 1);
            reveal_with_fuel(ps::call_args, 1);
        }
        let ghost s0 = self@;
        let mut arg_count: usize = 0;
        if self.token() != Token::RightParen {
            let (r, n) = self.call_args();
            match r {
                Ok(()) => {},
                Err(e) => return Err(e),
            }
            arg_count = n;
        }
        let is_printf = *name == String::from_str("printf");
        let ghost s1 = self@;
        if self.token() == Token::RightParen {
            self.next();
        } else if is_printf && arg_count > 0 {
        } else {
            return self.fail("Expected ')' after function arguments");
        }
        let (sym_class, sym_value, sym_type) = match self.find_index(name) {
            Some(i) => self.sym_entry(i),
            None => return self.fail_named("Unknown function '", name, "'"),
        };
        match sym_class {
            SymbolClass::Sys => {
                self.emit1(sym_value);
                if is_printf {
                    self.emit1(arg_count as i64);
                }
            },
            SymbolClass::Fun => {
                self.emit2(OpCode::JSR as i64, sym_value);
            },
            _ => return self.fail_named("'", name, "' is not a function"),
        }
        self.set_type(sym_type);
        if arg_count > 0 && !is_printf {
            self.emit2(OpCode::ADJ as i64, arg_count as i64);
        }
        Ok(())
    }
}

impl<'a> Parser<'a> {
    /// `x++` or `x--` on the variable at `a v` of type `t`.
    fn post_step(&mut self, a: i64, v: i64, t: &Type, inc: bool)
        requires
            old(self).wf(),
            old(self)@.tok() == Token::Inc || old(self)@.tok() == Token::Dec,
        ensures
            final(self)@ == ps::post_step(old(self)@, a, v, *t, inc),
            follows(old(self)@, final(self)@),
            final(self)@.code.len() > old(self)@.code.len(),
    {
        proof {
            reveal(ps::post_step);
        }
        let load = load_op_of(t);
        self.emit3(a, v, OpCode::PSH as i64);
        self.emit4(a, v, load, OpCode::PSH as i64);
        self.emit6(a, v, load, OpCode::PSH as i64, OpCode::IMM as i64, step_size_of(t));
        self.emit1(if inc { OpCode::ADD as i64 } else { OpCode::SUB as i64 });
        self.next();
        self.emit5(store_op_of(t), OpCode::PSH as i64, OpCode::IMM as i64, 0, OpCode::ADD as i64);
    }

    /// A variable, after its name.
    fn variable(&mut self, name: &String) -> (r: Result<(), String>)
        requires
            old(self).wf(),
        ensures
            (final(self)@, rv(r)) == ps::variable(old(self)@, name@),
            follows(old(self)@, final(self)@),
            r is Ok ==> final(self)@.code.len() > old(self)@.code.len(),
        decreases old(self)@.lex.measure(), 3nat,
    {
        proof {
            reveal_with_fuel(ps::variable, 1);
            reveal_with_fuel(ps::expr, 1);
        }
        proof {
            lemma_adv(self@);
        }
        let (sym_class, sym_value, sym_type) = match self.find_index(name) {
            Some(i) => self.sym_entry(i),
            None => return self.fail_named("Unknown variable '", name, "'"),
        };
        let is_inc = self.token() == Token::Inc;
        let step = is_inc || self.token() == Token::Dec;
        match sym_class {
            SymbolClass::Num => {
                self.emit2(OpCode::IMM as i64, sym_value);
                self.set_type(Type::Int);
            },
            SymbolClass::Glo | SymbolClass::Loc => {
                let a = if sym_class == SymbolClass::Glo { OpCode::IMM as i64 } else { OpCode::LEA as i64 };
                if self.token() == Token::Assign {
                    self.emit3(a, sym_value, OpCode::PSH as i64);
                    self.next();
                    match self.expr(0) {
                        Ok(()) => {},
                        Err(e) => return Err(e),
                    }
                    self.emit1(store_op_of(&sym_type));
                } else if step {
                    self.post_step(a, sym_value, &sym_type, is_inc);
                } else {
                    self.emit3(a, sym_value, load_op_of(&sym_type));
                }
                self.set_type(sym_type);
            },
            _ => return self.fail_named("Invalid variable '", name, "'"),
        }
        Ok(())
    }

    /// `*e`, after the `*`.
    fn deref(&mut self) -> (r: Result<(), String>)
        requires
            old(self).wf(),
        ensures
            (final(self)@, rv(r)) == ps::deref(old(self)@),
            follows(old(self)@, final(self)@),
            r is Ok ==> final(self)@.code.len() > old(self)@.code.len(),
        decreases old(self)@.lex.measure(), 5nat,
    {
        proof {
            reveal_with_fuel(ps::deref, 1);
            reveal_with_fuel(ps::expr, 1);
        }
        match self.expr(11) {
            Ok(()) => {},
            Err(e) => return Err(e),
        }
        let cur = self.type_of();
        let base = match &cur {
            Type::Ptr(b) => (**b).clone(),
            _ => {
                let mut e = self.line_error("Cannot dereference a non-pointer type (");
                cur.debug_string(&mut e);
                e.append(")");
                assert(e@ =~= line_msg(self@.lex.line, "Cannot dereference a non-pointer type ("@ + type_debug(self@.ty) + ")"@));
                return Err(e);
            },
        };
        let load = load_op_of(&base);
        self.set_type(base);
        self.emit1(load);
        Ok(())
    }

    /// `&e`, after the `&`.
    fn addr_of(&mut self) -> (r: Result<bool, String>)
        requires
            old(self).wf(),
        ensures
            (final(self)@, rvb(r)) == ps::addr_of(old(self)@),
            follows(old(self)@, final(self)@),
            r is Ok ==> final(self)@.code.len() >= old(self)@.code.len(),
        decreases old(self)@.lex.measure(), 5nat,
    {
        proof {
            reveal_with_fuel(ps::addr_of, 1);
            reveal_with_fuel(ps::expr, 1);
        }
        let code_pos_before = self.code_len();
        match self.expr(11) {
            Ok(()) => {},
            Err(e) => return Err(e),
        }
        if let Token::Str(_) = self.token() {
            self.set_type(Type::Ptr(Box::new(Type::Char)));
            return Ok(false);
        }
        let code_len = self.code_len();
        if code_len > code_pos_before {
            let last_instr = self.code_at(code_len - 1);
            if last_instr == OpCode::LC as i64 || last_instr == OpCode::LI as i64 {
                self.pop_code();
                let t = Type::Ptr(Box::new(self.type_of()));
                self.set_type(t);
            } else if code_len > code_pos_before + 1 {
                let next_to_last = self.code_at(code_len - 2);
                if next_to_last == OpCode::IMM as i64 || next_to_last == OpCode::LEA as i64 {
                    let t = Type::Ptr(Box::new(self.type_of()));
                    self.set_type(t);
                } else {
                    return self.fail_flag("Invalid address-of operation - can only take address of variables");
                }
            } else {
                return self.fail_flag("Invalid address-of operation - can only take address of variables");
            }
        } else {
            return self.fail_flag("Invalid address-of operation - empty expression");
        }
        Ok(true)
    }

    /// A unary operator's operand, then the four code words given.
    fn unary_tail(&mut self, a: i64, b: i64, c: i64, d: i64) -> (r: Result<(), String>)
        requires
            old(self).wf(),
        ensures
            (final(self)@, rv(r)) == ps::unary_tail(old(self)@, seq![a, b, c, d]),
            follows(old(self)@, final(self)@),
            r is Ok ==> final(self)@.code.len() > old(self)@.code.len(),
        decreases old(self)@.lex.measure(), 5nat,
    {
        proof {
            reveal_with_fuel(ps::unary_tail, 1);
            reveal_with_fuel(ps::expr, 1);
        }
        match self.expr(11) {
            Ok(()) => {},
            Err(e) => return Err(e),
        }
        self.emit4(a, b, c, d);
        self.set_type(Type::Int);
        Ok(())
    }

    /// `-e`, after the `-`.
    fn negate(&mut self) -> (r: Result<(), String>)
        requires
            old(self).wf(),
        ensures
            (final(self)@, rv(r)) == ps::negate(old(self)@),
            follows(old(self)@, final(self)@),
            r is Ok ==> final(self)@.code.len() > old(self)@.code.len(),
        decreases old(self)@.lex.measure(), 5nat,
    {
        proof {
            reveal_with_fuel(ps::negate, 1);
            reveal_with_fuel(ps::expr, 1);
        }
        proof {
            lemma_adv(self@);
        }
        if self.token() == Token::Num(self.lex_value()) {
            let val = 0i64.wrapping_sub(self.lex_value());
            self.emit2(OpCode::IMM as i64, val);
            self.next();
        } else {
            self.emit3(OpCode::IMM as i64, -1, OpCode::PSH as i64);
            match self.expr(11) {
                Ok(()) => {},
                Err(e) => return Err(e),
            }
            self.emit1(OpCode::MUL as i64);
        }
        self.set_type(Type::Int);
        Ok(())
    }

    /// `++e` or `--e`, after the operator.
    fn pre_step(&mut self, inc: bool) -> (r: Result<(), String>)
        requires
            old(self).wf(),
        ensures
            (final(self)@, rv(r)) == ps::pre_step(old(self)@, inc),
            follows(old(self)@, final(self)@),
            r is Ok ==> final(self)@.code.len() > old(self)@.code.len(),
        decreases old(self)@.lex.measure(), 5nat,
    {
        proof {
            reveal_with_fuel(ps::pre_step, 1);
            reveal_with_fuel(ps::expr, 1);
        }
        match self.expr(11) {
            Ok(()) => {},
            Err(e) => return Err(e),
        }
        let code_len = self.code_len();
        if code_len >= 1 {
            let last_instr = self.code_at(code_len - 1);
            if last_instr == OpCode::LC as i64 || last_instr == OpCode::LI as i64 {
                self.patch(code_len - 1, OpCode::PSH as i64);
                let step = step_size_of(&self.type_of());
                self.emit6(
                    last_instr,
                    OpCode::PSH as i64,
                    OpCode::IMM as i64,
                    step,
                    if inc { OpCode::ADD as i64 } else { OpCode::SUB as i64 },
                    if last_instr == OpCode::LC as i64 { OpCode::SC as i64 } else { OpCode::SI as i64 },
                );
                return Ok(());
            }
        }
        self.fail("Invalid LValue in pre-increment/decrement")
    }

    /// After `(`: a cast, or a parenthesized expression.
    fn paren(&mut self) -> (r: Result<(), String>)
        requires
            old(self).wf(),
        ensures
            (final(self)@, rv(r)) == ps::paren(old(self)@),
            follows(old(self)@, final(self)@),
            r is Ok ==> final(self)@.code.len() >= old(self)@.code.len(),
        decreases old(self)@.lex.measure(), 5nat,
    {
        proof {
            reveal_with_fuel(ps::paren, 1);
            reveal_with_fuel(ps::expr, 1);
        }
        proof {
            lemma_adv(self@);
        }
        if self.token() == Token::Int || self.token() == Token::Char {
            let typ = if self.token() == Token::Int { Type::Int } else { Type::Char };
            self.next();
            let typ = self.ptr_levels(typ);
            match self.expect(Token::RightParen, "Expected ')' after type cast") {
                Ok(()) => {},
                Err(e) => return Err(e),
            }
            match self.expr(11) {
                Ok(()) => {},
                Err(e) => return Err(e),
            }
            self.set_type(typ);
            Ok(())
        } else {
            match self.expr(0) {
                Ok(()) => {},
                Err(e) => return Err(e),
            }
            self.expect(Token::RightParen, "Expected ')' after expression")
        }
    }

    /// Reads `<<` or `>>` written as two `<` or two `>` tokens.
    fn handle_bitwise_operators(&mut self) -> (r: Result<(), String>)
        requires
            old(self).wf(),
        ensures
            (final(self)@, rv(r)) == ps::bitwise(old(self)@),
            follows(old(self)@, final(self)@),
            r is Ok ==> final(self)@.code.len() > old(self)@.code.len(),
            r is Ok || final(self)@ == old(self)@ || shrinks(final(self)@, old(self)@),
        decreases old(self)@.lex.measure(), 0nat,
    {
        proof {
            reveal_with_fuel(ps::bitwise, 1);
            reveal_with_fuel(ps::expr, 1);
        }
        let current_token = self.token();
        if current_token == Token::Lt {
            if self.peek_char() == Some('<') {
                self.next();
                self.next();
                self.emit1(OpCode::PSH as i64);
                match self.expr(self.precedence_of(Token::Shl)) {
                    Ok(()) => {},
                    Err(e) => return Err(e),
                }
                self.emit1(OpCode::SHL as i64);
                self.set_type(Type::Int);
                return Ok(());
            }
        } else if current_token == Token::Gt {
            if self.peek_char() == Some('>') {
                self.next();
                self.next();
                self.emit1(OpCode::PSH as i64);
                match self.expr(self.precedence_of(Token::Shr)) {
                    Ok(()) => {},
                    Err(e) => return Err(e),
                }
                self.emit1(OpCode::SHR as i64);
                self.set_type(Type::Int);
                return Ok(());
            }
        }
        Err(String::from_str("Not a bit shift operator"))
    }

    /// `<` or `>` in the place of an operand.
    fn lt_gt(&mut self, lt: bool) -> (r: Result<(), String>)
        requires
            old(self).wf(),
            old(self)@.tok() == (if lt { Token::Lt } else { Token::Gt }),
        ensures
            (final(self)@, rv(r)) == ps::lt_gt(old(self)@, lt),
            follows(old(self)@, final(self)@),
            r is Ok ==> shrinks(final(self)@, old(self)@),
            r is Ok ==> final(self)@.code.len() > old(self)@.code.len(),
        decreases old(self)@.lex.measure(), 1nat,
    {
        proof {
            ps::lemma_lt_gt_unfold(self@, lt);
        }
        proof {
            lemma_adv(self@);
        }
        let next_char = self.peek_char();
        if next_char == Some(if lt { '<' } else { '>' }) {
            match self.handle_bitwise_operators() {
                Ok(()) => return Ok(()),
                Err(_) => {},
            }
        }
        proof {
            lemma_adv(self@);
        }
        self.next();
        self.emit1(OpCode::PSH as i64);
        let p = if lt { self.precedence_of(Token::Lt) } else { self.precedence_of(Token::Gt) };
        match self.expr(p) {
            Ok(()) => {},
            Err(e) => return Err(e),
        }
        self.emit1(if lt { OpCode::LT as i64 } else { OpCode::GT as i64 });
        self.set_type(Type::Int);
        Ok(())
    }
}

impl<'a> Parser<'a> {
    /// A binary operator, already read, with a left operand of type
    /// `op_type`, and its right operand.
    #[verifier::rlimit(50)]
    fn binop(&mut self, op: Token, op_type: Type) -> (r: Result<(), String>)
        requires
            old(self).wf(),
        ensures
            (final(self)@, rv(r)) == ps::binop(old(self)@, op, op_type),
            follows(old(self)@, final(self)@),
            r is Ok ==> final(self)@.code.len() >= old(self)@.code.len(),
        decreases old(self)@.lex.measure(), 5nat,
    {
        proof {
            reveal_with_fuel(ps::binop, 1);
            reveal_with_fuel(ps::expr, 1);
        }
        let n = self.code_len();
        if op == Token::Assign {
            if n >= 1 && (self.code_at(n - 1) == OpCode::LI as i64 || self.code_at(n - 1) == OpCode::LC as i64) {
                let last_code = self.pop_code();
                match self.expr(0) {
                    Ok(()) => {},
                    Err(e) => return Err(e),
                }
                self.emit1(if last_code == OpCode::LC as i64 { OpCode::SC as i64 } else { OpCode::SI as i64 });
                Ok(())
            } else if n >= 1 && (self.code_at(n - 1) == OpCode::ADD as i64 || self.code_at(n - 1) == OpCode::MUL as i64) {
                self.emit1(OpCode::PSH as i64);
                match self.expr(0) {
                    Ok(()) => {},
                    Err(e) => return Err(e),
                }
                self.emit1(store_op_of(&op_type));
                Ok(())
            } else {
                self.fail("bad lvalue in assignment")
            }
        } else if op == Token::AddAssign || op == Token::SubAssign || op == Token::MulAssign
            || op == Token::DivAssign || op == Token::ModAssign || op == Token::ShlAssign
            || op == Token::ShrAssign || op == Token::AndAssign || op == Token::XorAssign
            || op == Token::OrAssign {
            if n < 2 {
                return self.fail("bad lvalue in compound assignment");
            }
            let load_type = self.pop_code();
            if load_type != OpCode::LI as i64 && load_type != OpCode::LC as i64 {
                return self.fail("expected load instruction in compound assignment");
            }
            let variable_code = self.copy_code();
            self.emit_all(&variable_code);
            self.emit2(load_type, OpCode::PSH as i64);
            match self.expr(self.precedence_of(op)) {
                Ok(()) => {},
                Err(e) => return Err(e),
            }
            let code = match op {
                Token::AddAssign => OpCode::ADD as i64,
                Token::SubAssign => OpCode::SUB as i64,
                Token::MulAssign => OpCode::MUL as i64,
                Token::DivAssign => OpCode::DIV as i64,
                Token::ModAssign => OpCode::MOD as i64,
                Token::ShlAssign => OpCode::SHL as i64,
                Token::ShrAssign => OpCode::SHR as i64,
                Token::AndAssign => OpCode::AND as i64,
                Token::XorAssign => OpCode::XOR as i64,
                _ => OpCode::OR as i64,
            };
            self.emit2(code, OpCode::PSH as i64);
            self.emit_all(&variable_code);
            self.emit1(if load_type == OpCode::LC as i64 { OpCode::SC as i64 } else { OpCode::SI as i64 });
            Ok(())
        } else if op == Token::Lor || op == Token::Lan {
            self.emit1(if op == Token::Lor { OpCode::BNZ as i64 } else { OpCode::BZ as i64 });
            let d = self.code_len();
            self.emit1(0);
            match self.expr(self.precedence_of(op)) {
                Ok(()) => {},
                Err(e) => return Err(e),
            }
            let here = self.code_len();
            self.patch(d, #[verifier::truncate] (here as i64));
            self.set_type(Type::Int);
            Ok(())
        } else {
            self.emit1(OpCode::PSH as i64);
            if op == Token::Add {
                match self.expr(self.precedence_of(op)) {
                    Ok(()) => {},
                    Err(e) => return Err(e),
                }
                if op_type.is_ptr() {
                    self.emit4(OpCode::PSH as i64, OpCode::IMM as i64, step_size_of(&op_type), OpCode::MUL as i64);
                }
                self.emit1(OpCode::ADD as i64);
                self.set_type(op_type);
                Ok(())
            } else if op == Token::Sub {
                match self.expr(self.precedence_of(op)) {
                    Ok(()) => {},
                    Err(e) => return Err(e),
                }
                if op_type.is_ptr() && self.type_of().is_ptr() {
                    self.emit5(
                        OpCode::SUB as i64,
                        OpCode::PSH as i64,
                        OpCode::IMM as i64,
                        step_size_of(&op_type),
                        OpCode::DIV as i64,
                    );
                    self.set_type(Type::Int);
                } else if op_type.is_ptr() {
                    self.emit5(
                        OpCode::PSH as i64,
                        OpCode::IMM as i64,
                        step_size_of(&op_type),
                        OpCode::MUL as i64,
                        OpCode::SUB as i64,
                    );
                    self.set_type(op_type);
                } else {
                    self.emit1(OpCode::SUB as i64);
                    self.set_type(Type::Int);
                }
                Ok(())
            } else if op == Token::LeftBracket {
                match self.expr(0) {
                    Ok(()) => {},
                    Err(e) => return Err(e),
                }
                match self.expect(Token::RightBracket, "Expected ']' after array index") {
                    Ok(()) => {},
                    Err(e) => return Err(e),
                }
                if !op_type.is_ptr() && !op_type.is_array() {
                    return self.fail("Array indexing requires a pointer or array type");
                }
                let base_type = match op_type.base_type() {
                    Some(b) => *b,
                    None => return self.fail("Array indexing requires a pointer or array type"),
                };
                self.emit5(
                    OpCode::PSH as i64,
                    OpCode::IMM as i64,
                    base_type.size() as i64,
                    OpCode::MUL as i64,
                    OpCode::ADD as i64,
                );
                let load = load_op_of(&base_type);
                self.set_type(base_type);
                let t = self.token();
                if t != Token::Assign && t != Token::AddAssign && t != Token::SubAssign
                    && t != Token::MulAssign && t != Token::DivAssign && t != Token::ModAssign {
                    self.emit1(load);
                }
                Ok(())
            } else {
                let code = match op {
                    Token::Mul => OpCode::MUL as i64,
                    Token::Div => OpCode::DIV as i64,
                    Token::Mod => OpCode::MOD as i64,
                    Token::Eq => OpCode::EQ as i64,
                    Token::Ne => OpCode::NE as i64,
                    Token::Le => OpCode::LE as i64,
                    Token::Ge => OpCode::GE as i64,
                    Token::And => OpCode::AND as i64,
                    Token::Or => OpCode::OR as i64,
                    Token::Xor => OpCode::XOR as i64,
                    Token::Shl => OpCode::SHL as i64,
                    Token::Shr => OpCode::SHR as i64,
                    Token::Lt => OpCode::LT as i64,
                    Token::Gt => OpCode::GT as i64,
                    _ => return self.fail("Unsupported operator"),
                };
                match self.expr(self.precedence_of(op)) {
                    Ok(()) => {},
                    Err(e) => return Err(e),
                }
                self.emit1(code);
                self.set_type(Type::Int);
                Ok(())
            }
        }
    }
}

} // verus!
