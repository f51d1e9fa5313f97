use c4_rust::lexer::{Lexer, Token};
use c4_rust::parser::{OpCode, Parser, SymbolClass, Type};
use c4_rust::vm::{run, run_checked};

fn parse_err(source: &str) -> String {
    let mut parser = Parser::new(source, false);
    parser.init().unwrap();
    parser.parse().unwrap_err()
}

fn expr_code(source: &str) -> Vec<i64> {
    let mut parser = Parser::new(source, false);
    parser.init().unwrap();
    parser.expr(0).unwrap();
    parser.code.clone()
}

#[test]
fn test_unknown_variable() {
    // "q" hashes to 7233, which has no well-known name
    assert_eq!(parse_err("int main() { return q; }"), "Line 1: Unknown variable 'id_7233'");
}

#[test]
fn test_error_line_number() {
    assert_eq!(parse_err("int main() {\n return q;\n}"), "Line 2: Unknown variable 'id_7233'");
}

#[test]
fn test_unknown_function() {
    assert_eq!(parse_err("int main() { q(); }"), "Line 1: Unknown function 'id_7233'");
}

#[test]
fn test_not_a_function() {
    assert_eq!(parse_err("int a; int main() { a(); }"), "Line 1: 'id_6209' is not a function");
}

#[test]
fn test_function_used_as_variable() {
    assert_eq!(parse_err("int main() { return main; }"), "Line 1: Invalid variable 'main'");
}

#[test]
fn test_expected_expression() {
    assert_eq!(parse_err("int main() { return ); }"), "Line 1: Expected expression");
}

#[test]
fn test_dereference_non_pointer() {
    assert_eq!(
        parse_err("int main() { return *1; }"),
        "Line 1: Cannot dereference a non-pointer type (Int)"
    );
}

#[test]
fn test_bad_lvalue() {
    assert_eq!(parse_err("int main() { 1 = 2; }"), "Line 1: bad lvalue in assignment");
}

#[test]
fn test_compound_assignment_without_load() {
    assert_eq!(
        parse_err("int main() { 1 += 2; }"),
        "Line 1: expected load instruction in compound assignment"
    );
}

#[test]
fn test_logical_or_and_code() {
    // the left operand decides: the branch skips the right one
    assert_eq!(
        expr_code("1 || 0"),
        vec![OpCode::IMM as i64, 1, OpCode::BNZ as i64, 6, OpCode::IMM as i64, 0]
    );
    assert_eq!(
        expr_code("1 && 0"),
        vec![OpCode::IMM as i64, 1, OpCode::BZ as i64, 6, OpCode::IMM as i64, 0]
    );
}

#[test]
fn test_logical_or_and_run() {
    assert_eq!(run("int main() { return 0 || 2; }", false, false), Ok(2));
    assert_eq!(run("int main() { return 0 && 2; }", false, false), Ok(0));
    assert_eq!(run("int main() { return 3 && 4; }", false, false), Ok(4));
}

#[test]
fn test_index_of_integer() {
    assert_eq!(
        parse_err("int main() { return 1[2]; }"),
        "Line 1: Array indexing requires a pointer or array type"
    );
}

#[test]
fn test_pre_increment_of_constant() {
    assert_eq!(
        parse_err("int main() { return ++1; }"),
        "Line 1: Invalid LValue in pre-increment/decrement"
    );
}

#[test]
fn test_missing_semicolon_after_return() {
    assert_eq!(parse_err("int main() { return 1 }"), "Line 1: Expected ';' after return");
}

#[test]
fn test_missing_semicolon_after_expression() {
    assert_eq!(parse_err("int main() { 1 2; }"), "Line 1: Expected ';' after expression");
}

#[test]
fn test_main_not_defined() {
    assert_eq!(parse_err("int f() { return 0; }"), "main() not defined");
}

#[test]
fn test_main_not_a_function() {
    assert_eq!(parse_err("int main;"), "main is not a function");
}

#[test]
fn test_duplicate_global() {
    assert_eq!(parse_err("int a; int a;"), "Symbol 'id_6209' already defined");
}

#[test]
fn test_duplicate_parameter() {
    assert_eq!(
        parse_err("int f(int a, int a) { return 0; }"),
        "Line 1: Duplicate parameter 'id_6209'"
    );
}

#[test]
fn test_duplicate_local() {
    assert_eq!(
        parse_err("int f() { int a; int a; return 0; }"),
        "Line 1: Duplicate local variable 'id_6209'"
    );
}

#[test]
fn test_parameter_type_expected() {
    assert_eq!(parse_err("int f(x) { }"), "Line 1: Parameter type expected");
}

#[test]
fn test_numeric_array_size_expected() {
    assert_eq!(parse_err("int a[b];"), "Line 1: Expected numeric array size");
}

#[test]
fn test_identifier_expected_in_declaration() {
    assert_eq!(parse_err("int 5;"), "Line 1: Expected identifier in declaration");
}

#[test]
fn test_enum_value_must_be_number() {
    assert_eq!(parse_err("enum { A = q };"), "Line 1: Expected numeric value after '='");
}

#[test]
fn test_enum_member_must_be_identifier() {
    assert_eq!(parse_err("enum { 5 };"), "Line 1: Expected identifier in enum declaration");
}

#[test]
fn test_add_symbol_twice() {
    let mut parser = Parser::new("", false);
    parser.init().unwrap();
    parser.add_symbol("x", SymbolClass::Glo, Type::Int, 1).unwrap();
    let err = parser.add_symbol("x", SymbolClass::Glo, Type::Char, 2).unwrap_err();
    assert_eq!(err, "Symbol 'x' already defined");
    let sym = parser.find_symbol("x").unwrap();
    assert_eq!(sym.value, 1);
    assert!(matches!(sym.typ, Type::Int));
}

#[test]
fn test_add_symbol_then_find() {
    let mut parser = Parser::new("", false);
    parser.init().unwrap();
    {
        let sym = parser.add_symbol("y", SymbolClass::Num, Type::Int, 7).unwrap();
        sym.value = 8;
    }
    let sym = parser.find_symbol("y").unwrap();
    assert_eq!(sym.class, SymbolClass::Num);
    assert_eq!(sym.value, 8);
    assert_eq!(parser.get_symbols().len(), 20);
}

#[test]
fn test_init_adds_builtins() {
    let mut parser = Parser::new("x", false);
    parser.init().unwrap();
    let printf = parser.find_symbol("printf").unwrap();
    assert_eq!(printf.class, SymbolClass::Sys);
    assert_eq!(printf.value, OpCode::PRTF as i64);
    let kw = parser.find_symbol("while").unwrap();
    assert_eq!(kw.class, SymbolClass::Num);
    assert_eq!(kw.value, 142);
    assert_eq!(parser.get_symbols().len(), 19);
}

#[test]
fn test_locals_leave_table_and_globals_come_back() {
    let source = "int a; int f(int a) { int b; return a; } int main() { return 0; }";
    let mut parser = Parser::new(source, false);
    parser.init().unwrap();
    parser.parse().unwrap();
    let symbols = parser.get_symbols();
    assert!(symbols.iter().all(|s| s.class != SymbolClass::Loc));
    let a = parser.find_symbol("id_6209").unwrap();
    assert_eq!(a.class, SymbolClass::Glo);
    assert!(parser.find_symbol("id_6273").is_none());
}

#[test]
fn test_parse_gives_main_function() {
    let mut parser = Parser::new("int main() { return 0; }", false);
    parser.init().unwrap();
    let (code, data) = parser.parse().unwrap();
    let main = parser.find_symbol("main").unwrap();
    assert_eq!(main.class, SymbolClass::Fun);
    assert_eq!(main.value, 0);
    assert_eq!(
        code,
        vec![
            OpCode::ENT as i64, 0,
            OpCode::IMM as i64, 0,
            OpCode::LEV as i64,
            OpCode::LEV as i64,
        ]
    );
    assert_eq!(data, b"Hello world!\n\0\0\0".to_vec());
}

#[test]
fn test_string_literal_goes_to_data() {
    let mut parser = Parser::new("int main() { return \"ab\"; }", false);
    parser.init().unwrap();
    let (code, data) = parser.parse().unwrap();
    assert_eq!(data.len(), 24);
    assert_eq!(&data[16..19], b"ab\0");
    assert_eq!(&code[2..4], &[OpCode::IMM as i64, 16]);
}

#[test]
fn test_global_variable_space() {
    let mut parser = Parser::new("int g, h[3]; int main() { return g; }", false);
    parser.init().unwrap();
    let (code, data) = parser.parse().unwrap();
    assert_eq!(data.len(), 16 + 8 + 24);
    let g = parser.find_symbol("id_6593").unwrap();
    assert_eq!(g.class, SymbolClass::Glo);
    assert_eq!(g.value, 16);
    assert_eq!(&code[2..5], &[OpCode::IMM as i64, 16, OpCode::LI as i64]);
}

#[test]
fn test_unary_minus_literal() {
    assert_eq!(expr_code("-5"), vec![OpCode::IMM as i64, -5]);
}

#[test]
fn test_unary_minus_expression() {
    assert_eq!(
        expr_code("-(1)"),
        vec![OpCode::IMM as i64, -1, OpCode::PSH as i64, OpCode::IMM as i64, 1, OpCode::MUL as i64]
    );
}

#[test]
fn test_logical_not() {
    assert_eq!(
        expr_code("!0"),
        vec![
            OpCode::IMM as i64, 0,
            OpCode::PSH as i64,
            OpCode::IMM as i64, 0,
            OpCode::EQ as i64,
        ]
    );
}

#[test]
fn test_sizeof() {
    assert_eq!(expr_code("sizeof(int*)"), vec![OpCode::IMM as i64, 8]);
    assert_eq!(expr_code("sizeof(char)"), vec![OpCode::IMM as i64, 1]);
}

#[test]
fn test_comparison_and_shift() {
    assert_eq!(
        expr_code("1 < 2"),
        vec![OpCode::IMM as i64, 1, OpCode::PSH as i64, OpCode::IMM as i64, 2, OpCode::LT as i64]
    );
    assert_eq!(
        expr_code("1 << 2"),
        vec![OpCode::IMM as i64, 1, OpCode::PSH as i64, OpCode::IMM as i64, 2, OpCode::SHL as i64]
    );
}

#[test]
fn test_for_loop_code() {
    let mut parser = Parser::new("for (;;) ;", false);
    parser.init().unwrap();
    parser.stmt().unwrap();
    assert_eq!(parser.code, vec![1, 1, 4, 10, 2, 8, 2, 0, 2, 6]);
}

#[test]
fn test_statement_error_keeps_code() {
    let mut parser = Parser::new("if 1", false);
    parser.init().unwrap();
    assert_eq!(parser.stmt().unwrap_err(), "Line 1: Expected '(' after 'if'");
    assert!(parser.code.is_empty());
}

#[test]
fn test_type_sizes() {
    assert_eq!(Type::Array(Box::new(Type::Int), 5).size(), 40);
    assert_eq!(Type::Array(Box::new(Type::Array(Box::new(Type::Char), 3)), 2).size(), 6);
    assert_eq!(Type::Ptr(Box::new(Type::Array(Box::new(Type::Int), 5))).size(), 8);
    // the product wraps around
    assert_eq!(Type::Array(Box::new(Type::Int), 1usize << (usize::BITS - 2)).size(), 0);
}

#[test]
fn test_type_base() {
    let t = Type::Ptr(Box::new(Type::Char));
    assert!(t.is_ptr());
    assert!(!t.is_array());
    assert!(matches!(*t.base_type().unwrap(), Type::Char));
    let a = Type::Array(Box::new(Type::Int), 2);
    assert!(a.is_array());
    assert!(matches!(*a.base_type().unwrap(), Type::Int));
    assert!(Type::Int.base_type().is_none());
}

#[test]
fn test_run_returns_main_value() {
    assert_eq!(run("int main() { return 42; }", false, false), Ok(42));
}

#[test]
fn test_run_source_only() {
    assert_eq!(run("int main() { return 42; }", true, false), Ok(0));
}

#[test]
fn test_run_parse_error() {
    assert_eq!(
        run("int main() { return q; }", false, false),
        Err("Line 1: Unknown variable 'id_7233'".to_string())
    );
}

#[test]
fn test_run_printf_output() {
    let (result, out) = run_checked("int main() { printf(\"hi %d\", 5); return 0; }", false, false).unwrap();
    assert_eq!(result, Ok(0));
    assert_eq!(out.iter().collect::<String>(), "hi 5");
}

#[test]
fn test_alphanumeric_identifier() {
    // 'é' continues an identifier: "aé" hashes to ((97 * 147 + 233) << 6) + 2
    let mut lexer = Lexer::new("aé b");
    assert_eq!(lexer.next(), Token::Id(927490));
    assert_eq!(lexer.next(), Token::Id(6273));
    assert_eq!(lexer.next(), Token::Eof);
}

#[test]
fn test_end_of_input_is_final() {
    let mut lexer = Lexer::new("x\n");
    assert_eq!(lexer.next(), Token::Id(7681));
    assert_eq!(lexer.next(), Token::Eof);
    let line = lexer.line();
    assert_eq!(lexer.next(), Token::Eof);
    assert_eq!(lexer.next(), Token::Eof);
    assert_eq!(lexer.line(), line);
    assert_eq!(line, 2);
}

#[test]
fn test_lines_never_decrease() {
    let mut lexer = Lexer::new("a\nb /* c\n d */ e\n\n f");
    let mut last = lexer.line();
    let mut lines = Vec::new();
    while lexer.next() != Token::Eof {
        assert!(lexer.line() >= last);
        last = lexer.line();
        lines.push(last);
    }
    assert_eq!(lines, vec![1, 2, 3, 5]);
}

#[test]
fn test_local_shadowing_parameter_stays_after_function() {
    // a local that shadows a parameter gives the parameter back as a local
    let source = "int main() { return 0; } int f(int a) { int a; return a; }";
    let mut parser = Parser::new(source, false);
    parser.init().unwrap();
    parser.parse().unwrap();
    let symbols = parser.get_symbols();
    assert!(symbols.iter().any(|s| s.class == SymbolClass::Loc && s.name == "id_6209"));
}

#[test]
fn test_compound_assignment_code() {
    let mut parser = Parser::new("int g; int main() { g += 2; return g; }", false);
    parser.init().unwrap();
    let (code, _) = parser.parse().unwrap();
    // the whole code before the operator is copied twice (the address of g
    // is the last part of it)
    let expected = vec![
        OpCode::ENT as i64, 0,
        OpCode::IMM as i64, 16,
        OpCode::ENT as i64, 0, OpCode::IMM as i64, 16, OpCode::LI as i64,
        OpCode::PSH as i64,
        OpCode::IMM as i64, 2,
        OpCode::ADD as i64, OpCode::PSH as i64,
        OpCode::ENT as i64, 0, OpCode::IMM as i64, 16,
        OpCode::SI as i64,
        OpCode::IMM as i64, 16, OpCode::LI as i64,
        OpCode::LEV as i64,
        OpCode::LEV as i64,
    ];
    assert_eq!(code, expected);
}

#[test]
fn test_string_buffer_keeps_earlier_literals() {
    let mut lexer = Lexer::new("\"ab\" 'c' \"d\"");
    assert_eq!(lexer.next(), Token::Str(0));
    assert_eq!(lexer.string_buffer(), b"ab\0");
    assert_eq!(lexer.next(), Token::Num(99));
    assert_eq!(lexer.string_buffer(), b"ab\0");
    assert_eq!(lexer.next(), Token::Str(3));
    assert_eq!(lexer.string_buffer(), b"ab\0d\0");
}

#[test]
fn test_enum_first_in_program() {
    let mut parser = Parser::new("enum { A }; int main() { return A; }", false);
    parser.init().unwrap();
    assert!(parser.parse().is_ok());
    assert_eq!(run("enum { A, B = 5, C }; int main() { return C; }", false, false), Ok(6));
}

#[test]
fn test_parse_without_init() {
    let mut parser = Parser::new("int main() { return 0; }", false);
    assert!(parser.parse().is_ok());
    assert_eq!(parser.get_symbols().len(), 20);
}

#[test]
fn test_hex_needs_leading_zero() {
    let mut lexer = Lexer::new("7X1 0X1A 0x1a");
    assert_eq!(lexer.next(), Token::Num(7));
    assert_eq!(lexer.value(), 7);
    assert!(matches!(lexer.next(), Token::Id(_)));
    assert_eq!(lexer.next(), Token::Num(26));
    assert_eq!(lexer.next(), Token::Num(26));
    assert_eq!(lexer.next(), Token::Eof);
}

#[test]
fn test_function_entry_reserves_locals() {
    let mut parser = Parser::new("int f() { int x, y, z; return 0; } int main() { return f(); }", false);
    parser.init().unwrap();
    let (code, _) = parser.parse().unwrap();
    assert_eq!(code[0], OpCode::ENT as i64);
    assert_eq!(code[1], 3);
}

#[test]
fn test_function_entry_counts_locals_after_parameters() {
    let mut parser = Parser::new("int f(int a, int b) { int x; char *p; return a; } int main() { return f(1, 2); }", false);
    parser.init().unwrap();
    let (code, _) = parser.parse().unwrap();
    assert_eq!(code[0], OpCode::ENT as i64);
    assert_eq!(code[1], 2);
}

#[test]
fn test_function_entry_counts_block_locals() {
    let mut parser = Parser::new("int f() { int x; if (1) { int y; y = 2; } return 0; } int main() { return f(); }", false);
    parser.init().unwrap();
    let (code, _) = parser.parse().unwrap();
    assert_eq!(code[0], OpCode::ENT as i64);
    assert_eq!(code[1], 2);
}

#[test]
fn test_many_locals_run() {
    let source = "int main() { int a, b, c, d, e, f, g; a = 1; b = 2; c = 3; d = 4; e = 5; f = 6; g = 7; \
                  printf(\"%d\", a); return a + b + c + d + e + f + g; }";
    assert_eq!(run(source, false, false), Ok(28));
}
