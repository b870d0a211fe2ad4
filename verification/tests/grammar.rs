use ea_compiler::ast::{BinaryOp, Expr, Literal, Pattern, SIMDExpr, SIMDVectorType, Stmt, UnaryOp};
use ea_compiler::error::CompileError;
use ea_compiler::lexer::{Lexer, Position};
use ea_compiler::parser::grammar::no_expression_error_at;
use ea_compiler::parser::{invalid_simd_type_error, Parser};

fn parse_expr(source: &str) -> Result<Expr, CompileError> {
    let mut lexer = Lexer::new(source);
    let tokens = lexer.tokenize_all()?;
    let mut parser = Parser::new(tokens);
    parser.parse()
}

fn parse_statement(source: &str) -> Result<Stmt, CompileError> {
    let mut lexer = Lexer::new(source);
    let tokens = lexer.tokenize_all()?;
    let mut parser = Parser::new(tokens);
    parser.declaration()
}

fn error_message(e: CompileError) -> String {
    match e {
        CompileError::ParseError { message, .. } => message,
        other => panic!("unexpected error {:?}", other),
    }
}

#[test]
fn test_parse_integer_literal() {
    let expr = parse_expr("42").unwrap();
    assert_eq!(expr, Expr::Literal(Literal::Integer(42)));
}

#[test]
fn test_parse_float_literal() {
    let expr = parse_expr("3.14").unwrap();
    assert_eq!(expr, Expr::Literal(Literal::Float("3.14".to_string())));
}

#[test]
fn test_parse_string_literal() {
    let expr = parse_expr(r#""hello""#).unwrap();
    assert_eq!(expr, Expr::Literal(Literal::String("hello".to_string())));
}

#[test]
fn test_parse_boolean_literal() {
    let expr1 = parse_expr("true").unwrap();
    let expr2 = parse_expr("false").unwrap();
    assert_eq!(expr1, Expr::Literal(Literal::Boolean(true)));
    assert_eq!(expr2, Expr::Literal(Literal::Boolean(false)));
}

#[test]
fn test_parse_variable() {
    let expr = parse_expr("foo").unwrap();
    assert_eq!(expr, Expr::Variable("foo".to_string()));
}

#[test]
fn test_parse_unary_expression() {
    let expr1 = parse_expr("-42").unwrap();
    let expr2 = parse_expr("!true").unwrap();

    assert_eq!(
        expr1,
        Expr::Unary(UnaryOp::Negate, Box::new(Expr::Literal(Literal::Integer(42))))
    );

    assert_eq!(
        expr2,
        Expr::Unary(UnaryOp::Not, Box::new(Expr::Literal(Literal::Boolean(true))))
    );
}

#[test]
fn test_parse_binary_expression() {
    let expr = parse_expr("1 + 2").unwrap();

    assert_eq!(
        expr,
        Expr::Binary(
            Box::new(Expr::Literal(Literal::Integer(1))),
            BinaryOp::Add,
            Box::new(Expr::Literal(Literal::Integer(2)))
        )
    );
}

#[test]
fn test_parse_complex_expression() {
    let expr = parse_expr("1 + 2 * 3").unwrap();

    assert_eq!(
        expr,
        Expr::Binary(
            Box::new(Expr::Literal(Literal::Integer(1))),
            BinaryOp::Add,
            Box::new(Expr::Binary(
                Box::new(Expr::Literal(Literal::Integer(2))),
                BinaryOp::Multiply,
                Box::new(Expr::Literal(Literal::Integer(3)))
            ))
        )
    );
}

#[test]
fn test_parse_grouping() {
    let expr = parse_expr("(1 + 2) * 3").unwrap();

    assert_eq!(
        expr,
        Expr::Binary(
            Box::new(Expr::Grouping(Box::new(Expr::Binary(
                Box::new(Expr::Literal(Literal::Integer(1))),
                BinaryOp::Add,
                Box::new(Expr::Literal(Literal::Integer(2)))
            )))),
            BinaryOp::Multiply,
            Box::new(Expr::Literal(Literal::Integer(3)))
        )
    );
}

#[test]
fn test_parse_function_call() {
    let expr = parse_expr("foo(1, 2)").unwrap();

    assert_eq!(
        expr,
        Expr::Call(
            Box::new(Expr::Variable("foo".to_string())),
            vec![Expr::Literal(Literal::Integer(1)), Expr::Literal(Literal::Integer(2))]
        )
    );
}

#[test]
fn test_parse_array_indexing() {
    let expr = parse_expr("array[1 + 2]").unwrap();

    assert_eq!(
        expr,
        Expr::Index(
            Box::new(Expr::Variable("array".to_string())),
            Box::new(Expr::Binary(
                Box::new(Expr::Literal(Literal::Integer(1))),
                BinaryOp::Add,
                Box::new(Expr::Literal(Literal::Integer(2)))
            ))
        )
    );
}

#[test]
fn test_parse_field_access() {
    let expr = parse_expr("object.field").unwrap();

    assert_eq!(
        expr,
        Expr::FieldAccess(Box::new(Expr::Variable("object".to_string())), "field".to_string())
    );
}

#[test]
fn test_parse_assignment() {
    let expr = parse_expr("x = 42").unwrap();

    assert_eq!(
        expr,
        Expr::Binary(
            Box::new(Expr::Variable("x".to_string())),
            BinaryOp::Assign,
            Box::new(Expr::Literal(Literal::Integer(42)))
        )
    );
}

#[test]
fn test_parse_compound_assignment() {
    let expr1 = parse_expr("x += 5").unwrap();
    let expr2 = parse_expr("y *= z").unwrap();

    assert_eq!(
        expr1,
        Expr::Binary(
            Box::new(Expr::Variable("x".to_string())),
            BinaryOp::PlusAssign,
            Box::new(Expr::Literal(Literal::Integer(5)))
        )
    );

    assert_eq!(
        expr2,
        Expr::Binary(
            Box::new(Expr::Variable("y".to_string())),
            BinaryOp::MultiplyAssign,
            Box::new(Expr::Variable("z".to_string()))
        )
    );
}

#[test]
fn test_parse_variable_declaration() {
    let source = "let x = 42;";
    let result = parse_statement(source).unwrap();

    if let Stmt::VarDeclaration { name, type_annotation, initializer } = result {
        assert_eq!(name, "x");
        assert!(type_annotation.is_none());
        assert_eq!(initializer.unwrap(), Expr::Literal(Literal::Integer(42)));
    } else {
        panic!("Expected variable declaration, got {:?}", result);
    }
}

#[test]
fn test_parse_typed_variable_declaration() {
    let source = "let mut y: i32 = 10;";
    let result = parse_statement(source).unwrap();

    if let Stmt::VarDeclaration { name, type_annotation, initializer } = result {
        assert_eq!(name, "y");

        assert!(type_annotation.is_some());
        let type_ann = type_annotation.unwrap();
        assert_eq!(type_ann.name, "i32");
        assert!(type_ann.is_mutable);

        assert_eq!(initializer.unwrap(), Expr::Literal(Literal::Integer(10)));
    } else {
        panic!("Expected variable declaration, got {:?}", result);
    }
}

#[test]
fn test_parse_expression_statement() {
    let source = "foo(1, 2);";
    let result = parse_statement(source).unwrap();

    if let Stmt::Expression(expr) = result {
        if let Expr::Call(callee, args) = expr {
            assert_eq!(*callee, Expr::Variable("foo".to_string()));
            assert_eq!(args.len(), 2);
            assert_eq!(args[0], Expr::Literal(Literal::Integer(1)));
            assert_eq!(args[1], Expr::Literal(Literal::Integer(2)));
        } else {
            panic!("Expected call expression, got {:?}", expr);
        }
    } else {
        panic!("Expected expression statement, got {:?}", result);
    }
}

#[test]
fn test_parse_return_statement() {
    let source = "return 42;";
    let result = parse_statement(source).unwrap();

    if let Stmt::Return(expr) = result {
        assert!(expr.is_some());
        assert_eq!(expr.unwrap(), Expr::Literal(Literal::Integer(42)));
    } else {
        panic!("Expected return statement, got {:?}", result);
    }
}

#[test]
fn test_parse_empty_return_statement() {
    let source = "return;";
    let result = parse_statement(source).unwrap();

    if let Stmt::Return(expr) = result {
        assert!(expr.is_none());
    } else {
        panic!("Expected return statement, got {:?}", result);
    }
}

#[test]
fn test_parse_block_statement() {
    let source = "{ let x = 1; let y = 2; }";
    let result = parse_statement(source).unwrap();

    if let Stmt::Block(statements) = result {
        assert_eq!(statements.len(), 2);

        if let Stmt::VarDeclaration { name, .. } = &statements[0] {
            assert_eq!(name, "x");
        } else {
            panic!("Expected variable declaration");
        }

        if let Stmt::VarDeclaration { name, .. } = &statements[1] {
            assert_eq!(name, "y");
        } else {
            panic!("Expected variable declaration");
        }
    } else {
        panic!("Expected block statement, got {:?}", result);
    }
}

#[test]
fn test_parse_if_statement() {
    let source = "if (x > 10) { return true; } else { return false; }";
    let result = parse_statement(source).unwrap();

    if let Stmt::If { condition, then_branch, else_branch } = result {
        assert!(matches!(condition, Expr::Binary(_, BinaryOp::Greater, _)));

        if let Stmt::Block(stmts) = *then_branch {
            assert_eq!(stmts.len(), 1);
            assert!(matches!(stmts[0], Stmt::Return(_)));
        } else {
            panic!("Expected block in then branch");
        }

        assert!(else_branch.is_some());
        if let Stmt::Block(stmts) = *else_branch.unwrap() {
            assert_eq!(stmts.len(), 1);
            assert!(matches!(stmts[0], Stmt::Return(_)));
        } else {
            panic!("Expected block in else branch");
        }
    } else {
        panic!("Expected if statement, got {:?}", result);
    }
}

#[test]
fn test_parse_while_statement() {
    let source = "while (i < 10) { i += 1; }";
    let result = parse_statement(source).unwrap();

    if let Stmt::While { condition, body } = result {
        assert!(matches!(condition, Expr::Binary(_, BinaryOp::Less, _)));

        if let Stmt::Block(stmts) = *body {
            assert_eq!(stmts.len(), 1);
            assert!(matches!(stmts[0], Stmt::Expression(_)));
        } else {
            panic!("Expected block in while body");
        }
    } else {
        panic!("Expected while statement, got {:?}", result);
    }
}

#[test]
fn test_parse_for_statement() {
    let source = "for (let i = 0; i < 10; i += 1) { print(i); }";
    let result = parse_statement(source).unwrap();

    if let Stmt::For { initializer, condition, increment, body } = result {
        assert!(initializer.is_some());
        assert!(matches!(*initializer.unwrap(), Stmt::VarDeclaration { .. }));

        assert!(condition.is_some());
        assert!(matches!(condition.unwrap(), Expr::Binary(_, BinaryOp::Less, _)));

        assert!(increment.is_some());
        assert!(matches!(increment.unwrap(), Expr::Binary(_, BinaryOp::PlusAssign, _)));

        if let Stmt::Block(stmts) = *body {
            assert_eq!(stmts.len(), 1);
            assert!(matches!(stmts[0], Stmt::Expression(_)));
        } else {
            panic!("Expected block in for body");
        }
    } else {
        panic!("Expected for statement, got {:?}", result);
    }
}

#[test]
fn test_parse_function_declaration() {
    let source = "func add(a: i32, b: i32) -> i32 { return a + b; }";
    let result = parse_statement(source).unwrap();

    if let Stmt::FunctionDeclaration { name, params, return_type, body, .. } = result {
        assert_eq!(name, "add");

        assert_eq!(params.len(), 2);
        assert_eq!(params[0].name, "a");
        assert_eq!(params[0].type_annotation.name, "i32");
        assert_eq!(params[1].name, "b");
        assert_eq!(params[1].type_annotation.name, "i32");

        assert!(return_type.is_some());
        assert_eq!(return_type.unwrap().name, "i32");

        if let Stmt::Block(stmts) = *body {
            assert_eq!(stmts.len(), 1);
            assert!(matches!(stmts[0], Stmt::Return(_)));
        } else {
            panic!("Expected block in function body");
        }
    } else {
        panic!("Expected function declaration, got {:?}", result);
    }
}

#[test]
fn test_parse_void_function_declaration() {
    let source = "func greet(name: string) -> () { print(name); return; }";
    let result = parse_statement(source).unwrap();

    if let Stmt::FunctionDeclaration { name, params, return_type, body, .. } = result {
        assert_eq!(name, "greet");

        assert_eq!(params.len(), 1);
        assert_eq!(params[0].name, "name");
        assert_eq!(params[0].type_annotation.name, "string");

        assert!(return_type.is_some());
        assert_eq!(return_type.unwrap().name, "()");

        if let Stmt::Block(stmts) = *body {
            assert_eq!(stmts.len(), 2);
            assert!(matches!(stmts[0], Stmt::Expression(_)));
            assert!(matches!(stmts[1], Stmt::Return(None)));
        } else {
            panic!("Expected block in function body");
        }
    } else {
        panic!("Expected function declaration, got {:?}", result);
    }
}

#[test]
fn test_parse_complex_program() {
    let source = r#"
            func fibonacci(n: i32) -> i32 {
                if (n <= 1) {
                    return n;
                }
                return fibonacci(n - 1) + fibonacci(n - 2);
            }

            func main() -> () {
                let result = fibonacci(10);
                print(result);
                return;
            }
        "#;

    let mut lexer = Lexer::new(source);
    let tokens = lexer.tokenize_all().unwrap();
    let mut parser = Parser::new(tokens);
    let program = parser.parse_program().unwrap();

    assert_eq!(program.len(), 2);
    assert!(matches!(program[0], Stmt::FunctionDeclaration { .. }));
    assert!(matches!(program[1], Stmt::FunctionDeclaration { .. }));

    if let Stmt::FunctionDeclaration { name, .. } = &program[0] {
        assert_eq!(name, "fibonacci");
    }

    if let Stmt::FunctionDeclaration { name, .. } = &program[1] {
        assert_eq!(name, "main");
    }
}

#[test]
fn mod_test_parse_array_indexing_fixed() {
    let source = "array[1 + 2]";
    let mut lexer = Lexer::new(source);
    let tokens = lexer.tokenize_all().expect("Lexing should succeed");
    let mut parser = Parser::new(tokens);

    let expr = parser.expression().expect("Parsing should succeed");

    match expr {
        Expr::Index(array, index) => {
            assert!(matches!(*array, Expr::Variable(_)));
            assert!(matches!(*index, Expr::Binary(_, _, _)));
        }
        _ => panic!("Expected Index expression, got {:?}", expr),
    }
}

#[test]
fn mod_test_simd_vector_literal_parsing() {
    let source = "[1.0, 2.0, 3.0, 4.0]f32x4";
    let mut lexer = Lexer::new(source);
    let tokens = lexer.tokenize_all().expect("Lexing should succeed");
    let mut parser = Parser::new(tokens);

    let expr = parser.expression().expect("Parsing should succeed");

    match expr {
        Expr::SIMD(SIMDExpr::VectorLiteral { elements, vector_type, .. }) => {
            assert_eq!(elements.len(), 4);
            assert_eq!(vector_type, Some(SIMDVectorType::F32x4));
        }
        _ => panic!("Expected SIMD VectorLiteral, got {:?}", expr),
    }
}

#[test]
fn mod_test_regular_array_literal() {
    let source = "[1, 2, 3]";
    let mut lexer = Lexer::new(source);
    let tokens = lexer.tokenize_all().expect("Lexing should succeed");
    let mut parser = Parser::new(tokens);

    let expr = parser.expression().expect("Parsing should succeed");

    match expr {
        Expr::Literal(Literal::Vector { elements, vector_type }) => {
            assert_eq!(elements.len(), 3);
            assert_eq!(vector_type, None);
        }
        _ => panic!("Expected Vector literal, got {:?}", expr),
    }
}

#[test]
fn mod_test_empty_array() {
    let source = "[]";
    let mut lexer = Lexer::new(source);
    let tokens = lexer.tokenize_all().expect("Lexing should succeed");
    let mut parser = Parser::new(tokens);

    let expr = parser.expression().expect("Parsing should succeed");

    match expr {
        Expr::Literal(Literal::Vector { elements, vector_type }) => {
            assert_eq!(elements.len(), 0);
            assert_eq!(vector_type, None);
        }
        _ => panic!("Expected empty Vector literal, got {:?}", expr),
    }
}

#[test]
fn test_basic_parsing() {
    let source = r#"
            func add(a: i32, b: i32) -> i32 {
                return a + b;
            }
        "#;

    let program = ea_compiler::parse(source).unwrap();
    assert_eq!(program.len(), 1);

    match &program[0] {
        Stmt::FunctionDeclaration { name, params, .. } => {
            assert_eq!(name, "add");
            assert_eq!(params.len(), 2);
        }
        _ => panic!("Expected function declaration"),
    }
}

#[test]
fn subtraction_and_division_associate_to_the_left() {
    let expr = parse_expr("8 - 4 - 2").unwrap();
    assert_eq!(
        expr,
        Expr::Binary(
            Box::new(Expr::Binary(
                Box::new(Expr::Literal(Literal::Integer(8))),
                BinaryOp::Subtract,
                Box::new(Expr::Literal(Literal::Integer(4)))
            )),
            BinaryOp::Subtract,
            Box::new(Expr::Literal(Literal::Integer(2)))
        )
    );
}

#[test]
fn assignment_associates_to_the_right() {
    let expr = parse_expr("a = b = 1").unwrap();
    assert_eq!(
        expr,
        Expr::Binary(
            Box::new(Expr::Variable("a".to_string())),
            BinaryOp::Assign,
            Box::new(Expr::Binary(
                Box::new(Expr::Variable("b".to_string())),
                BinaryOp::Assign,
                Box::new(Expr::Literal(Literal::Integer(1)))
            ))
        )
    );
}

#[test]
fn logical_operators_bind_more_loosely_than_comparisons() {
    let expr = parse_expr("a < b && c == d || e").unwrap();
    match expr {
        Expr::Binary(left, BinaryOp::Or, right) => {
            assert_eq!(*right, Expr::Variable("e".to_string()));
            match *left {
                Expr::Binary(l, BinaryOp::And, r) => {
                    assert!(matches!(*l, Expr::Binary(_, BinaryOp::Less, _)));
                    assert!(matches!(*r, Expr::Binary(_, BinaryOp::Equal, _)));
                }
                other => panic!("unexpected {:?}", other),
            }
        }
        other => panic!("unexpected {:?}", other),
    }
}

#[test]
fn element_wise_operators_follow_their_scalar_levels() {
    let expr = parse_expr("a .+ b .* c").unwrap();
    match expr {
        Expr::SIMD(SIMDExpr::ElementWise { operator, right, .. }) => {
            assert_eq!(operator, ea_compiler::ast::SIMDOperator::DotAdd);
            assert!(matches!(
                *right,
                Expr::SIMD(SIMDExpr::ElementWise {
                    operator: ea_compiler::ast::SIMDOperator::DotMultiply,
                    ..
                })
            ));
        }
        other => panic!("unexpected {:?}", other),
    }
}

#[test]
fn invalid_assignment_target_is_an_error() {
    let e = parse_expr("1 = 2").unwrap_err();
    assert_eq!(error_message(e), "Invalid assignment target");
}

#[test]
fn missing_expression_names_the_token() {
    let e = parse_expr(")").unwrap_err();
    assert_eq!(error_message(e), "Expected expression, got RightParen");
}

#[test]
fn struct_and_enum_literals() {
    let expr = parse_expr("Point { x: 1, y: 2 }").unwrap();
    match expr {
        Expr::StructLiteral { name, fields } => {
            assert_eq!(name, "Point");
            assert_eq!(fields.len(), 2);
            assert_eq!(fields[1].name, "y");
        }
        other => panic!("unexpected {:?}", other),
    }
    let expr = parse_expr("Option::Some(3)").unwrap();
    assert_eq!(
        expr,
        Expr::Call(
            Box::new(Expr::FieldAccess(
                Box::new(Expr::Variable("Option".to_string())),
                "Some".to_string()
            )),
            vec![Expr::Literal(Literal::Integer(3))]
        )
    );
    let expr = parse_expr("Color::Red").unwrap();
    assert_eq!(
        expr,
        Expr::EnumLiteral {
            enum_name: "Color".to_string(),
            variant: "Red".to_string(),
            args: vec![]
        }
    );
}

#[test]
fn match_expression_with_patterns() {
    let expr = parse_expr("match x { 1 => a, Shape::Circle(r) => r, _ => 0 }").unwrap();
    match expr {
        Expr::Match { value, arms } => {
            assert_eq!(*value, Expr::Variable("x".to_string()));
            assert_eq!(arms.len(), 3);
            assert_eq!(arms[0].pattern, Pattern::Literal(Literal::Integer(1)));
            assert_eq!(
                arms[1].pattern,
                Pattern::EnumVariant {
                    enum_name: "Shape".to_string(),
                    variant: "Circle".to_string(),
                    patterns: vec![Pattern::Variable("r".to_string())]
                }
            );
            assert_eq!(arms[2].pattern, Pattern::Wildcard);
        }
        other => panic!("unexpected {:?}", other),
    }
}

#[test]
fn simd_builtins_parse() {
    let expr = parse_expr("horizontal_sum(v)").unwrap();
    assert!(matches!(
        expr,
        Expr::SIMD(SIMDExpr::Reduction { operation: ea_compiler::ast::ReductionOp::Sum, .. })
    ));
    let expr = parse_expr("dot_product(a, b)").unwrap();
    assert!(matches!(expr, Expr::SIMD(SIMDExpr::DotProduct { .. })));
    let expr = parse_expr("store_vector(p, v, 16)").unwrap();
    match expr {
        Expr::SIMD(SIMDExpr::VectorStore { alignment, .. }) => assert_eq!(alignment, Some(16)),
        other => panic!("unexpected {:?}", other),
    }
    let e = parse_expr("store_vector(p, v, 12)").unwrap_err();
    assert_eq!(error_message(e), "Alignment must be a power of 2 between 1 and 64");
}

#[test]
fn array_literal_elements_must_be_literals() {
    let e = parse_expr("[1, x]").unwrap_err();
    assert_eq!(error_message(e), "Array literals can only contain literal values");
}

#[test]
fn program_errors_are_collected_and_the_first_returned() {
    let mut lexer = Lexer::new("let = 1; let y = 2; func");
    let tokens = lexer.tokenize_all().unwrap();
    let mut parser = Parser::new(tokens);
    let e = parser.parse_program().unwrap_err();
    assert_eq!(error_message(e), "Expected variable name");
    assert!(parser.get_errors().len() >= 2);
}

#[test]
fn for_in_loop_parses() {
    let result = parse_statement("for item in range(3) { print(item); }").unwrap();
    match result {
        Stmt::ForIn { variable, iterable, body } => {
            assert_eq!(variable, "item");
            assert!(matches!(iterable, Expr::Call(_, _)));
            assert!(matches!(*body, Stmt::Block(_)));
        }
        other => panic!("unexpected {:?}", other),
    }
}

#[test]
fn parse_statement_steps_through_a_program() {
    let mut lexer = Lexer::new("let a = 1; a = 2;");
    let tokens = lexer.tokenize_all().unwrap();
    let mut parser = Parser::new(tokens);
    assert!(matches!(parser.parse_statement(), Ok(Some(Stmt::VarDeclaration { .. }))));
    assert!(matches!(parser.parse_statement(), Ok(Some(Stmt::Expression(_)))));
    assert!(matches!(parser.parse_statement(), Ok(None)));
}

#[test]
fn function_declaration_errors_name_the_kind() {
    let e = parse_statement("func 1").unwrap_err();
    assert_eq!(error_message(e), "Expected function name");
    let e = parse_statement("func f {").unwrap_err();
    assert_eq!(error_message(e), "Expected '(' after function name");
    let e = parse_statement("func f() return").unwrap_err();
    assert_eq!(error_message(e), "Expected '{' before function body");
}

#[test]
fn error_builders_for_token_names() {
    let at = Position::new(2, 5, 9);
    let e = no_expression_error_at(&"Semicolon".to_string(), at);
    assert_eq!(error_message(e), "Expected expression, got Semicolon");
    let e = invalid_simd_type_error(&"I32".to_string(), at);
    match e {
        CompileError::ParseError { message, position } => {
            assert_eq!(message, "Invalid SIMD vector type: I32");
            assert_eq!(position, at);
        }
        other => panic!("unexpected {:?}", other),
    }
}

#[test]
fn small_forms_parse_exactly() {
    let result = parse_statement("for (;;) {}").unwrap();
    match result {
        Stmt::For { initializer, condition, increment, body } => {
            assert!(initializer.is_none() && condition.is_none() && increment.is_none());
            assert_eq!(*body, Stmt::Block(vec![]));
        }
        other => panic!("unexpected {:?}", other),
    }
    assert_eq!(
        parse_expr("match x {}").unwrap(),
        Expr::Match { value: Box::new(Expr::Variable("x".to_string())), arms: vec![] }
    );
    assert_eq!(
        parse_expr("P {}").unwrap(),
        Expr::StructLiteral { name: "P".to_string(), fields: vec![] }
    );
    assert_eq!(parse_expr("{}").unwrap(), Expr::Block(vec![]));
    assert_eq!(
        parse_statement("let x;").unwrap(),
        Stmt::VarDeclaration { name: "x".to_string(), type_annotation: None, initializer: None }
    );
    assert_eq!(
        parse_statement("f();").unwrap(),
        Stmt::Expression(Expr::Call(Box::new(Expr::Variable("f".to_string())), vec![]))
    );
    match parse_expr("store_vector(p, v)").unwrap() {
        Expr::SIMD(SIMDExpr::VectorStore { address, vector, alignment, .. }) => {
            assert_eq!(*address, Expr::Variable("p".to_string()));
            assert_eq!(*vector, Expr::Variable("v".to_string()));
            assert_eq!(alignment, None);
        }
        other => panic!("unexpected {:?}", other),
    }
    assert!(parse_expr("load_vector(p, f32x4)").is_err());
    assert!(parse_expr("load_vector(p, t)").is_err());
}

#[test]
fn struct_and_enum_declarations_parse_exactly() {
    match parse_statement("struct Point { x: i32, y: Other, }").unwrap() {
        Stmt::StructDeclaration { name, fields } => {
            assert_eq!(name, "Point");
            assert_eq!(fields.len(), 2);
            assert_eq!(fields[0].name, "x");
            assert_eq!(fields[0].type_annotation.name, "i32");
            assert!(!fields[0].type_annotation.is_mutable);
            assert_eq!(fields[1].name, "y");
            assert_eq!(fields[1].type_annotation.name, "Other");
        }
        other => panic!("expected a struct, got {:?}", other),
    }
    match parse_statement("enum Shape { Circle(f32), Rect(f32, f32), Empty }").unwrap() {
        Stmt::EnumDeclaration { name, variants } => {
            assert_eq!(name, "Shape");
            assert_eq!(variants.len(), 3);
            assert_eq!(variants[0].name, "Circle");
            assert_eq!(variants[0].data.as_ref().unwrap().len(), 1);
            assert_eq!(variants[1].data.as_ref().unwrap()[1].name, "f32");
            assert!(variants[2].data.is_none());
        }
        other => panic!("expected an enum, got {:?}", other),
    }
}

#[test]
fn slices_and_field_chains_parse_exactly() {
    let expr = parse_expr("a[1:2].len").unwrap();
    assert_eq!(
        expr,
        Expr::FieldAccess(
            Box::new(Expr::Slice {
                array: Box::new(Expr::Variable("a".to_string())),
                start: Box::new(Expr::Literal(Literal::Integer(1))),
                end: Box::new(Expr::Literal(Literal::Integer(2))),
            }),
            "len".to_string()
        )
    );
    let expr = parse_expr("-(x)").unwrap();
    assert_eq!(
        expr,
        Expr::Unary(UnaryOp::Negate, Box::new(Expr::Grouping(Box::new(Expr::Variable("x".to_string())))))
    );
}

#[test]
fn block_expressions_within_expressions_hold_their_declarations() {
    let program = ea_compiler::parse("let x = { let y = 1; y + 2; };").unwrap();
    assert_eq!(program.len(), 1);
    match &program[0] {
        Stmt::VarDeclaration { name, initializer: Some(Expr::Block(statements)), .. } => {
            assert_eq!(name, "x");
            assert_eq!(
                statements[0],
                Stmt::VarDeclaration {
                    name: "y".to_string(),
                    type_annotation: None,
                    initializer: Some(Expr::Literal(Literal::Integer(1))),
                }
            );
            assert_eq!(
                statements[1],
                Stmt::Expression(Expr::Binary(
                    Box::new(Expr::Variable("y".to_string())),
                    BinaryOp::Add,
                    Box::new(Expr::Literal(Literal::Integer(2))),
                ))
            );
            assert_eq!(statements.len(), 2);
        }
        other => panic!("expected a variable with a block initializer, got {:?}", other),
    }
}

#[test]
fn block_expressions_compare_as_operands() {
    let expr = parse_expr("{ } == { 1; }").unwrap();
    match expr {
        Expr::Binary(left, BinaryOp::Equal, right) => {
            assert_eq!(*left, Expr::Block(vec![]));
            assert_eq!(
                *right,
                Expr::Block(vec![Stmt::Expression(Expr::Literal(Literal::Integer(1)))])
            );
        }
        other => panic!("expected a comparison of blocks, got {:?}", other),
    }
}

#[test]
fn a_program_whose_first_token_starts_no_declaration_is_refused() {
    assert!(ea_compiler::parse(") let x = 1;").is_err());
    assert!(ea_compiler::parse("; func f() { }").is_err());
}
