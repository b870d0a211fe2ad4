use ea_compiler::ast::{Expr, Literal, Parameter, Stmt, TypeAnnotation};
use ea_compiler::execution_mode::{
    analyze_execution_complexity, is_likely_vector_expression, is_vector_type, ExecutionMode,
};

fn ty(name: &str) -> TypeAnnotation {
    TypeAnnotation { name: name.to_string(), is_mutable: false }
}

fn function(name: &str, params: Vec<Parameter>, body: Vec<Stmt>) -> Stmt {
    Stmt::FunctionDeclaration {
        name: name.to_string(),
        params,
        return_type: Some(ty("i32")),
        body: Box::new(Stmt::Block(body)),
        attributes: vec![],
    }
}

#[test]
fn test_simple_program_analysis() {
    let statements = vec![Stmt::FunctionDeclaration {
        name: "main".to_string(),
        params: vec![],
        return_type: Some(TypeAnnotation { name: "i32".to_string(), is_mutable: false }),
        body: Box::new(Stmt::Block(vec![
            Stmt::Expression(Expr::Call(
                Box::new(Expr::Variable("println".to_string())),
                vec![Expr::Literal(Literal::String("Hello".to_string()))],
            )),
            Stmt::Return(Some(Expr::Literal(Literal::Integer(0)))),
        ])),
        attributes: vec![],
    }];

    let analysis = analyze_execution_complexity(&statements).unwrap();
    assert_eq!(analysis.execution_mode(), ExecutionMode::JitSafe);
    assert_eq!(analysis.function_count, 1);
    assert!(!analysis.has_simd_function_calls);
    assert!(!analysis.complex_control_flow);
}

#[test]
fn test_simd_program_analysis() {
    let statements = vec![Stmt::FunctionDeclaration {
        name: "simd_func".to_string(),
        params: vec![Parameter {
            name: "vec".to_string(),
            type_annotation: TypeAnnotation { name: "f32x4".to_string(), is_mutable: false },
        }],
        return_type: Some(TypeAnnotation { name: "f32".to_string(), is_mutable: false }),
        body: Box::new(Stmt::Block(vec![Stmt::Return(Some(Expr::Literal(Literal::Float(
            "1.0".to_string(),
        ))))])),
        attributes: vec![],
    }];

    let analysis = analyze_execution_complexity(&statements).unwrap();
    assert_eq!(analysis.execution_mode(), ExecutionMode::CompileRequired);
    assert!(analysis.has_simd_function_calls);
    assert_eq!(analysis.execution_reason(), "SIMD functions detected");
}

#[test]
fn test_complex_control_flow() {
    let statements = vec![Stmt::FunctionDeclaration {
        name: "complex".to_string(),
        params: vec![],
        return_type: Some(TypeAnnotation { name: "i32".to_string(), is_mutable: false }),
        body: Box::new(Stmt::Block(vec![Stmt::While {
            condition: Expr::Literal(Literal::Boolean(true)),
            body: Box::new(Stmt::Block(vec![Stmt::If {
                condition: Expr::Literal(Literal::Boolean(true)),
                then_branch: Box::new(Stmt::Block(vec![
                    Stmt::Expression(Expr::Literal(Literal::Integer(1))),
                    Stmt::Expression(Expr::Literal(Literal::Integer(2))),
                    Stmt::Expression(Expr::Literal(Literal::Integer(3))),
                    Stmt::Expression(Expr::Literal(Literal::Integer(4))),
                ])),
                else_branch: None,
            }])),
        }])),
        attributes: vec![],
    }];

    let analysis = analyze_execution_complexity(&statements).unwrap();
    assert_eq!(analysis.execution_mode(), ExecutionMode::JitRisky);
    assert!(analysis.complex_control_flow);
}

#[test]
fn counts_of_a_simple_program() {
    let statements = vec![function(
        "main",
        vec![],
        vec![
            Stmt::Expression(Expr::Literal(Literal::Integer(1))),
            Stmt::Return(None),
        ],
    )];
    let analysis = analyze_execution_complexity(&statements).unwrap();
    assert_eq!(analysis.statement_count, 4);
    assert_eq!(analysis.max_recursion_depth, 2);
    assert_eq!(analysis.execution_reason(), "simple program");
}

#[test]
fn empty_program_is_simple() {
    let analysis = analyze_execution_complexity(&[]).unwrap();
    assert_eq!(analysis.statement_count, 0);
    assert_eq!(analysis.execution_mode(), ExecutionMode::JitSafe);
}

#[test]
fn many_functions_need_compilation() {
    let statements: Vec<Stmt> = (0..16).map(|i| function(&format!("f{}", i), vec![], vec![])).collect();
    let analysis = analyze_execution_complexity(&statements).unwrap();
    assert_eq!(analysis.function_count, 16);
    assert_eq!(analysis.execution_mode(), ExecutionMode::CompileRequired);
    assert_eq!(analysis.execution_reason(), "many functions detected");
}

#[test]
fn large_programs_need_compilation() {
    let body: Vec<Stmt> = (0..50).map(|i| Stmt::Expression(Expr::Literal(Literal::Integer(i)))).collect();
    let statements = vec![function("main", vec![], body)];
    let analysis = analyze_execution_complexity(&statements).unwrap();
    assert_eq!(analysis.statement_count, 52);
    assert_eq!(analysis.execution_mode(), ExecutionMode::CompileRequired);
    assert_eq!(analysis.execution_reason(), "large program detected");
}

#[test]
fn deep_nesting_is_risky() {
    let mut stmt = Stmt::Break;
    for _ in 0..6 {
        stmt = Stmt::Block(vec![stmt]);
    }
    let analysis = analyze_execution_complexity(&[stmt]).unwrap();
    assert_eq!(analysis.max_recursion_depth, 6);
    assert_eq!(analysis.execution_mode(), ExecutionMode::JitRisky);
    assert_eq!(analysis.execution_reason(), "medium complexity detected");
}

#[test]
fn vector_declarations_and_expressions() {
    let statements = vec![Stmt::VarDeclaration {
        name: "v".to_string(),
        type_annotation: Some(ty("i32x8")),
        initializer: None,
    }];
    let analysis = analyze_execution_complexity(&statements).unwrap();
    assert!(analysis.has_simd_operations);
    assert!(!analysis.has_simd_function_calls);

    assert!(is_vector_type(&ty("u8x16")));
    assert!(!is_vector_type(&ty("i32")));
    assert!(is_likely_vector_expression(&Expr::Variable("my_vec".to_string())));
    assert!(!is_likely_vector_expression(&Expr::Variable("count".to_string())));
}
