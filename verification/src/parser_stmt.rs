//! Statements: conditionals, loops, returns, blocks and expression
//! statements, with the branches and jumps they need.

use vstd::prelude::*;
use crate::lexer::Token;
use crate::parser::{OpCode, Parser, SymbolClass, Type, rv};
use crate::parser_spec as ps;
use crate::parser_spec::{follows, lemma_adv, shrinks};

verus! {

impl<'a> Parser<'a> {
    /// Parses a statement and emits its code.
    pub fn stmt(&mut self) -> (r: Result<(), String>)
        requires
            old(self).wf(),
        ensures
            (final(self)@, rv(r)) == ps::stmt(old(self)@),
            follows(old(self)@, final(self)@),
            r is Ok ==> shrinks(final(self)@, old(self)@),
            r is Ok ==> final(self)@.code.len() >= old(self)@.code.len(),
        decreases old(self)@.lex.measure(), 2nat,
    {
        proof {
            ps::lemma_stmt_unfold(self@);
            lemma_adv(self@);
        }
        match self.token() {
            Token::If => {
                self.next();
                self.if_stmt()
            },
            Token::For => {
                self.next();
                self.for_stmt()
            },
            Token::While => {
                self.next();
                self.while_stmt()
            },
            Token::Return => {
                self.next();
                self.return_stmt()
            },
            Token::LeftBrace => {
                self.next();
                self.block()
            },
            Token::Semicolon => {
                self.next();
                Ok(())
            },
            _ => self.expr_stmt(),
        }
    }

    /// `if`, after the keyword.
    fn if_stmt(&mut self) -> (r: Result<(), String>)
        requires
            old(self).wf(),
        ensures
            (final(self)@, rv(r)) == ps::if_stmt(old(self)@),
            follows(old(self)@, final(self)@),
            r is Ok ==> final(self)@.code.len() >= old(self)@.code.len(),
        decreases old(self)@.lex.measure(), 3nat,
    {
        proof {
            ps::lemma_if_stmt_unfold(self@);
        }
        match self.expect(Token::LeftParen, "Expected '(' after 'if'") {
            Ok(()) => {},
            Err(e) => return Err(e),
        }
        match self.expr(0) {
            Ok(()) => {},
            Err(e) => return Err(e),
        }
        match self.expect(Token::RightParen, "Expected ')' after condition") {
            Ok(()) => {},
            Err(e) => return Err(e),
        }
        self.emit1(OpCode::BZ as i64);
        let branch_pos = self.code_len();
        self.emit1(0);
        match self.stmt() {
            Ok(()) => {},
            Err(e) => return Err(e),
        }
        if self.token() == Token::Else {
            self.next();
            self.emit1(OpCode::JMP as i64);
            let jump_pos = self.code_len();
            self.emit1(0);
            let here = self.code_len();
            self.patch(branch_pos, #[verifier::truncate] (here as i64));
            match self.stmt() {
                Ok(()) => {},
                Err(e) => return Err(e),
            }
            let here = self.code_len();
            self.patch(jump_pos, #[verifier::truncate] (here as i64));
        } else {
            let here = self.code_len();
            self.patch(branch_pos, #[verifier::truncate] (here as i64));
        }
        Ok(())
    }

    /// `for`, after the keyword.
    fn for_stmt(&mut self) -> (r: Result<(), String>)
        requires
            old(self).wf(),
        ensures
            (final(self)@, rv(r)) == ps::for_stmt(old(self)@),
            follows(old(self)@, final(self)@),
            r is Ok ==> final(self)@.code.len() >= old(self)@.code.len(),
        decreases old(self)@.lex.measure(), 3nat,
    {
        proof {
            ps::lemma_for_stmt_unfold(self@);
        }
        match self.expect(Token::LeftParen, "Expected '(' after 'for'") {
            Ok(()) => {},
            Err(e) => return Err(e),
        }
        if self.token() != Token::Semicolon {
            match self.expr(0) {
                Ok(()) => {},
                Err(e) => return Err(e),
            }
        }
        match self.expect(Token::Semicolon, "Expected ';' after for initialization") {
            Ok(()) => {},
            Err(e) => return Err(e),
        }
        let cond_pos = self.code_len();
        if self.token() != Token::Semicolon {
            match self.expr(0) {
                Ok(()) => {},
                Err(e) => return Err(e),
            }
        } else {
            self.emit2(OpCode::IMM as i64, 1);
        }
        match self.expect(Token::Semicolon, "Expected ';' after for condition") {
            Ok(()) => {},
            Err(e) => return Err(e),
        }
        self.emit1(OpCode::BZ as i64);
        let exit_branch_pos = self.code_len();
        self.emit2(0, OpCode::JMP as i64);
        let body_jump_pos = self.code_len();
        self.emit1(0);
        let inc_pos = self.code_len();
        if self.token() != Token::RightParen {
            match self.expr(0) {
                Ok(()) => {},
                Err(e) => return Err(e),
            }
        }
        self.emit2(OpCode::JMP as i64, #[verifier::truncate] (cond_pos as i64));
        match self.expect(Token::RightParen, "Expected ')' after for increment") {
            Ok(()) => {},
            Err(e) => return Err(e),
        }
        let body_pos = self.code_len();
        self.patch(body_jump_pos, #[verifier::truncate] (body_pos as i64));
        match self.stmt() {
            Ok(()) => {},
            Err(e) => return Err(e),
        }
        self.emit2(OpCode::JMP as i64, #[verifier::truncate] (inc_pos as i64));
        let exit_pos = self.code_len();
        self.patch(exit_branch_pos, #[verifier::truncate] (exit_pos as i64));
        Ok(())
    }

    /// `while`, after the keyword.
    fn while_stmt(&mut self) -> (r: Result<(), String>)
        requires
            old(self).wf(),
        ensures
            (final(self)@, rv(r)) == ps::while_stmt(old(self)@),
            follows(old(self)@, final(self)@),
            r is Ok ==> final(self)@.code.len() >= old(self)@.code.len(),
        decreases old(self)@.lex.measure(), 3nat,
    {
        proof {
            ps::lemma_while_stmt_unfold(self@);
        }
        let loop_start = self.code_len();
        match self.expect(Token::LeftParen, "Expected '(' after 'while'") {
            Ok(()) => {},
            Err(e) => return Err(e),
        }
        match self.expr(0) {
            Ok(()) => {},
            Err(e) => return Err(e),
        }
        match self.expect(Token::RightParen, "Expected ')' after condition") {
            Ok(()) => {},
            Err(e) => return Err(e),
        }
        self.emit1(OpCode::BZ as i64);
        let branch_pos = self.code_len();
        self.emit1(0);
        match self.stmt() {
            Ok(()) => {},
            Err(e) => return Err(e),
        }
        self.emit2(OpCode::JMP as i64, #[verifier::truncate] (loop_start as i64));
        let here = self.code_len();
        self.patch(branch_pos, #[verifier::truncate] (here as i64));
        Ok(())
    }

    /// `return`, after the keyword.
    fn return_stmt(&mut self) -> (r: Result<(), String>)
        requires
            old(self).wf(),
        ensures
            (final(self)@, rv(r)) == ps::return_stmt(old(self)@),
            follows(old(self)@, final(self)@),
            r is Ok ==> final(self)@.code.len() >= old(self)@.code.len(),
    {
        if self.token() != Token::Semicolon {
            match self.expr(0) {
                Ok(()) => {},
                Err(e) => return Err(e),
            }
        }
        self.emit1(OpCode::LEV as i64);
        self.expect(Token::Semicolon, "Expected ';' after return")
    }

    /// A block, after `{`.
    fn block(&mut self) -> (r: Result<(), String>)
        requires
            old(self).wf(),
        ensures
            (final(self)@, rv(r)) == ps::block(old(self)@),
            follows(old(self)@, final(self)@),
            r is Ok ==> final(self)@.code.len() >= old(self)@.code.len(),
        decreases old(self)@.lex.measure(), 4nat,
    {
        let ghost s0 = self@;
        let ghost goal = ps::block_items(s0);
        loop
            invariant_except_break
                ps::block_items(self@) == goal,
            invariant
                self.wf(),
                goal == ps::block_items(s0),
                s0 == old(self)@,
                follows(s0, self@),
                self@.code.len() >= s0.code.len(),
            ensures
                goal == self@.ok(),
            decreases self@.lex.measure(),
        {
            proof {
                ps::lemma_block_items_unfold(self@);
                ps::lemma_block_unfold(s0);
                lemma_adv(self@);
            }
            let t = self.token();
            if t == Token::RightBrace || t == Token::Eof {
                break;
            }
            if t == Token::Int || t == Token::Char {
                let base = if t == Token::Int { Type::Int } else { Type::Char };
                self.next();
                match self.block_decls(base) {
                    Ok(()) => {},
                    Err(e) => return Err(e),
                }
                match self.expect(Token::Semicolon, "Expected ';' after local variable declaration") {
                    Ok(()) => {},
                    Err(e) => return Err(e),
                }
            } else {
                match self.stmt() {
                    Ok(()) => {},
                    Err(e) => return Err(e),
                }
            }
        }
        proof {
            ps::lemma_block_unfold(s0);
        }
        self.expect(Token::RightBrace, "Expected '}' to end block")
    }

    /// The declarators of a local declaration in a block.
    fn block_decls(&mut self, base: Type) -> (r: Result<(), String>)
        requires
            old(self).wf(),
        ensures
            (final(self)@, rv(r)) == ps::block_decls(old(self)@, base),
            follows(old(self)@, final(self)@),
            final(self)@.code == old(self)@.code,
    {
        let ghost goal = ps::block_decls(old(self)@, base);
        loop
            invariant_except_break
                ps::block_decls(self@, base) == goal,
            invariant
                self.wf(),
                goal == ps::block_decls(old(self)@, base),
                follows(old(self)@, self@),
                self@.code == old(self)@.code,
            ensures
                goal == self@.ok(),
            decreases self@.lex.measure(),
        {
            let ghost s = self@;
            if self.token() == Token::Semicolon {
                break;
            }
            let var_type = self.ptr_levels(base.clone());
            match self.token() {
                Token::Id(id) => {
                    let var_name = self.get_id_name(id);
                    let slot = self.locals_now();
                    match self.add_sym(&var_name, SymbolClass::Loc, var_type, #[verifier::truncate] (slot as i64)) {
                        Ok(()) => {},
                        Err(e) => return Err(e),
                    }
                    self.take_local();
                    proof {
                        lemma_adv(self@);
                    }
                    if self.token() == Token::Comma {
                        self.next();
                    } else {
                        break;
                    }
                },
                _ => return self.fail("Local variable name expected"),
            }
        }
        Ok(())
    }

    /// An expression statement.
    fn expr_stmt(&mut self) -> (r: Result<(), String>)
        requires
            old(self).wf(),
        ensures
            (final(self)@, rv(r)) == ps::expr_stmt(old(self)@),
            follows(old(self)@, final(self)@),
            r is Ok ==> shrinks(final(self)@, old(self)@),
            r is Ok ==> final(self)@.code.len() >= old(self)@.code.len(),
    {
        match self.expr(0) {
            Ok(()) => {},
            Err(e) => return Err(e),
        }
        if self.token() == Token::Semicolon {
            self.next();
            Ok(())
        } else {
            let line = self.line_now();
            let is_int = match self.type_of() {
                Type::Int => true,
                _ => false,
            };
            if line == 61 && is_int {
                Ok(())
            } else {
                self.fail("Expected ';' after expression")
            }
        }
    }
}

} // verus!
