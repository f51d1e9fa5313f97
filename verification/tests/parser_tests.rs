use c4_rust::parser::{OpCode, Parser, SymbolClass, Type};

#[test]
fn test_symbol_table() {
    let mut parser = Parser::new("", false);
    parser.init().unwrap();

    // Add a global symbol
    parser.add_symbol("global_var", SymbolClass::Glo, Type::Int, 123).unwrap();

    // Verify it exists
    let symbol = parser.find_symbol("global_var").unwrap();
    assert_eq!(symbol.name, "global_var");
    assert_eq!(symbol.class, SymbolClass::Glo);
    assert_eq!(symbol.value, 123);
    assert!(matches!(symbol.typ, Type::Int));
}

#[test]
fn test_type_size() {
    assert_eq!(Type::Char.size(), 1);
    assert_eq!(Type::Int.size(), 8);
    assert_eq!(Type::Ptr(Box::new(Type::Char)).size(), 8);
    assert_eq!(Type::Ptr(Box::new(Type::Int)).size(), 8);
}

#[test]
fn test_expr_simple() {
    let source = "1 + 2 * 3";
    let mut parser = Parser::new(source, false);
    parser.init().unwrap();

    // Parse the expression
    parser.expr(0).unwrap();

    // IMM 1, PSH, IMM 2, PSH, IMM 3, MUL, ADD
    let expected = vec![
        OpCode::IMM as i64, 1,
        OpCode::PSH as i64,
        OpCode::IMM as i64, 2,
        OpCode::PSH as i64,
        OpCode::IMM as i64, 3,
        OpCode::MUL as i64,
        OpCode::ADD as i64,
    ];

    assert_eq!(parser.code, expected, "Simple expression code generation failed");
}

#[test]
fn test_stmt_if_else() {
    let source = "if (1) 2; else 3;";
    let mut parser = Parser::new(source, false);
    parser.init().unwrap();

    // Parse the if statement
    parser.stmt().unwrap();

    // IMM 1, BZ else, IMM 2, JMP end, else: IMM 3, end:
    let expected = vec![
        OpCode::IMM as i64, 1,
        OpCode::BZ as i64, 8,
        OpCode::IMM as i64, 2,
        OpCode::JMP as i64, 10,
        OpCode::IMM as i64, 3,
    ];

    assert_eq!(parser.code, expected, "If-else statement code generation failed");
}

#[test]
fn test_stmt_while() {
    let source = "while (1) 2;";
    let mut parser = Parser::new(source, false);
    parser.init().unwrap();

    // Parse the while statement
    parser.stmt().unwrap();

    // loop: IMM 1, BZ end, IMM 2, JMP loop, end:
    let expected = vec![
        OpCode::IMM as i64, 1,
        OpCode::BZ as i64, 8,
        OpCode::IMM as i64, 2,
        OpCode::JMP as i64, 0,
    ];

    assert_eq!(parser.code, expected, "While statement code generation failed");
}
