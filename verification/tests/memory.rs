use ea_compiler::ast::{Expr, Literal, Stmt, TypeAnnotation};
use ea_compiler::memory::{
    analyze_access_pattern, analyze_memory_regions, classify_memory_region, estimate_type_size,
    generate_memory_metadata, AccessPattern, MemoryAnalysis, MemoryRegionType,
};
use ea_compiler::name_map::NameMap;

fn ty(name: &str) -> Option<TypeAnnotation> {
    Some(TypeAnnotation { name: name.to_string(), is_mutable: false })
}

#[test]
fn test_memory_analysis_creation() {
    let analysis = MemoryAnalysis {
        variables: NameMap::new(),
        stack_usage: 0,
        working_set_size: 0,
        lifetime_analysis: NameMap::new(),
    };

    assert_eq!(analysis.stack_usage, 0);
    assert_eq!(analysis.working_set_size, 0);
}

#[test]
fn test_variable_memory_classification() {
    let region = classify_memory_region(4, &ty("i32"));
    assert_eq!(region, MemoryRegionType::Stack);

    let region = classify_memory_region(4000, &ty("[i32; 1000]"));
    assert_eq!(region, MemoryRegionType::WorkingSet);
}

#[test]
fn test_type_size_estimation() {
    assert_eq!(estimate_type_size(&ty("i32")), 4);
    assert_eq!(estimate_type_size(&ty("i64")), 8);
    assert_eq!(estimate_type_size(&ty("string")), 64);
}

#[test]
fn test_array_size_estimation() {
    let size = estimate_type_size(&ty("[i32; 1000]"));
    assert_eq!(size, 4000);
}

#[test]
fn test_access_pattern_analysis() {
    let pattern = analyze_access_pattern(&Some(Expr::Literal(Literal::String("test".to_string()))));
    assert_eq!(pattern, AccessPattern::WriteOnce);

    let pattern = analyze_access_pattern(&None);
    assert_eq!(pattern, AccessPattern::Random);
}

#[test]
fn test_memory_analysis_integration() {
    let program = vec![
        Stmt::VarDeclaration {
            name: "stack_var".to_string(),
            type_annotation: ty("i32"),
            initializer: Some(Expr::Literal(Literal::Integer(42))),
        },
        Stmt::VarDeclaration {
            name: "working_data".to_string(),
            type_annotation: ty("[i32; 4]"),
            initializer: Some(Expr::Literal(Literal::Vector {
                elements: vec![
                    Literal::Integer(1),
                    Literal::Integer(2),
                    Literal::Integer(3),
                    Literal::Integer(4),
                ],
                vector_type: None,
            })),
        },
    ];

    let analysis = analyze_memory_regions(&program);

    assert!(analysis.variables.contains_key("stack_var"));
    assert!(analysis.variables.contains_key("working_data"));

    let stack_var = analysis.variables.get("stack_var").unwrap();
    assert_eq!(stack_var.region_type, MemoryRegionType::Stack);
    assert_eq!(stack_var.size_bytes, 4);

    let working_data = analysis.variables.get("working_data").unwrap();
    assert_eq!(working_data.region_type, MemoryRegionType::Stack);
    assert_eq!(working_data.size_bytes, 16);
}

#[test]
fn size_estimates_for_other_types() {
    assert_eq!(estimate_type_size(&None), 8);
    assert_eq!(estimate_type_size(&ty("f32")), 4);
    assert_eq!(estimate_type_size(&ty("bool")), 1);
    assert_eq!(estimate_type_size(&ty("Point")), 8);
    assert_eq!(estimate_type_size(&ty("[f64; 10]")), 80);
    assert_eq!(estimate_type_size(&ty("[i32; many]")), 32);
    assert_eq!(estimate_type_size(&ty("[i32; 3")), 32);
    assert_eq!(classify_memory_region(64, &None), MemoryRegionType::Stack);
    assert_eq!(classify_memory_region(65, &None), MemoryRegionType::WorkingSet);
    assert_eq!(classify_memory_region(4097, &None), MemoryRegionType::ReadOnly);
}

#[test]
fn metadata_describes_each_variable() {
    let program = vec![Stmt::VarDeclaration {
        name: "big".to_string(),
        type_annotation: ty("[i32; 2000]"),
        initializer: None,
    }];
    let analysis = analyze_memory_regions(&program);
    assert_eq!(analysis.stack_usage, 0);
    assert_eq!(analysis.working_set_size, 0);
    let md = generate_memory_metadata(&analysis);
    assert_eq!(md.len(), 1);
    assert_eq!(md[0].variable_name, "big");
    assert_eq!(md[0].region_type, "readonly");
    assert_eq!(md[0].lifetime_start, 1);
    assert_eq!(md[0].lifetime_end, 101);
}
