use ea_compiler::error::CompileError;
use ea_compiler::parser_optimization::{
    ExpressionComplexityAnalyzer, ParseCacheKey, ParseResult, ParseType, ParserOptimizer,
};

fn key(start: usize, end: usize, parse_type: ParseType) -> ParseCacheKey {
    ParseCacheKey { token_range: (start, end), parse_type }
}

fn error_text(r: Option<&ParseResult>) -> Option<String> {
    match r {
        Some(ParseResult::Error(s)) => Some(s.clone()),
        Some(_) => Some("other".to_string()),
        None => None,
    }
}

#[test]
fn cached_results_are_found_again() {
    let mut opt = ParserOptimizer::new();
    assert_eq!(error_text(opt.get_cached(&key(0, 3, ParseType::Term))), None);
    opt.cache_result(key(0, 3, ParseType::Term), ParseResult::Error("a".to_string()));
    assert_eq!(error_text(opt.get_cached(&key(0, 3, ParseType::Term))), Some("a".to_string()));
    assert_eq!(error_text(opt.get_cached(&key(0, 3, ParseType::Factor))), None);
    opt.cache_result(key(0, 3, ParseType::Term), ParseResult::Error("b".to_string()));
    assert_eq!(error_text(opt.get_cached(&key(0, 3, ParseType::Term))), Some("b".to_string()));
}

#[test]
fn full_cache_drops_its_oldest_quarter() {
    let mut opt = ParserOptimizer::with_config(4, 10);
    for i in 0..4 {
        opt.cache_result(key(i, i + 1, ParseType::Expression), ParseResult::Error(format!("r{}", i)));
    }
    opt.cache_result(key(9, 10, ParseType::Expression), ParseResult::Error("new".to_string()));
    assert_eq!(error_text(opt.get_cached(&key(0, 1, ParseType::Expression))), None);
    assert_eq!(error_text(opt.get_cached(&key(1, 2, ParseType::Expression))), Some("r1".to_string()));
    assert_eq!(error_text(opt.get_cached(&key(9, 10, ParseType::Expression))), Some("new".to_string()));
}

#[test]
fn disabled_caching_stores_and_counts_nothing() {
    let mut opt = ParserOptimizer::new();
    opt.disable_caching();
    opt.cache_result(key(0, 1, ParseType::Unary), ParseResult::Error("x".to_string()));
    assert_eq!(error_text(opt.get_cached(&key(0, 1, ParseType::Unary))), None);
    opt.enable_caching();
    assert_eq!(error_text(opt.get_cached(&key(0, 1, ParseType::Unary))), None);
    let report = opt.generate_performance_report();
    assert!(report.contains("Cache Hits: 0\nCache Misses: 1\n"));
}

#[test]
fn recursion_past_the_limit_fails() {
    let mut opt = ParserOptimizer::with_config(10, 3);
    assert!(opt.enter_recursion().is_ok());
    assert!(opt.enter_recursion().is_ok());
    assert!(opt.enter_recursion().is_ok());
    match opt.enter_recursion() {
        Err(CompileError::ParseError { message, .. }) => assert_eq!(
            message,
            "Maximum recursion depth 3 exceeded. Consider simplifying your expressions."
        ),
        _ => panic!("expected a parse error"),
    }
    for _ in 0..6 {
        opt.exit_recursion();
    }
    assert!(opt.enter_recursion().is_ok());
}

#[test]
fn report_of_a_new_optimizer() {
    let opt = ParserOptimizer::new();
    assert_eq!(
        opt.generate_performance_report(),
        "=== Parser Performance Report ===\nCache Hits: 0\nCache Misses: 0\nCache Hit Ratio: 0.00%\nCache Size: 0 entries\nTotal Parse Time: 0.00ms\nMax Recursion Depth: 0\nRecursion Limit: 1000\n\n💡 Tip: Low cache hit ratio. Consider enabling expression caching.\n"
    );
}

#[test]
fn report_with_hits_time_and_deep_recursion() {
    let mut opt = ParserOptimizer::with_config(10, 3);
    opt.cache_result(key(0, 1, ParseType::Term), ParseResult::Error("t".to_string()));
    opt.get_cached(&key(0, 1, ParseType::Term));
    opt.get_cached(&key(0, 1, ParseType::Term));
    opt.get_cached(&key(5, 6, ParseType::Term));
    opt.enter_recursion().unwrap();
    opt.enter_recursion().unwrap();
    opt.record_parse_time(1_234_567);
    assert_eq!(
        opt.generate_performance_report(),
        "=== Parser Performance Report ===\nCache Hits: 2\nCache Misses: 1\nCache Hit Ratio: 66.67%\nCache Size: 1 entries\nTotal Parse Time: 1.23ms\nMax Recursion Depth: 2\nRecursion Limit: 3\n\n⚠️  Warning: High recursion depth detected. Consider simplifying expressions.\n"
    );
}

#[test]
fn timed_parses_return_the_operation_result() {
    let mut opt = ParserOptimizer::new();
    let r: Result<u32, CompileError> = opt.time_parse(|| Ok(7));
    assert_eq!(r.unwrap(), 7);
}

#[test]
fn clearing_and_resetting() {
    let mut opt = ParserOptimizer::new();
    opt.cache_result(key(0, 1, ParseType::Term), ParseResult::Error("t".to_string()));
    opt.get_cached(&key(0, 1, ParseType::Term));
    opt.clear_cache();
    assert!(opt.generate_performance_report().contains("Cache Hits: 0\nCache Misses: 0\n"));
    opt.enter_recursion().unwrap();
    opt.record_parse_time(10_000_000);
    opt.reset_metrics();
    assert!(opt.generate_performance_report().contains("Total Parse Time: 0.00ms\nMax Recursion Depth: 0\n"));
}

#[test]
fn expression_counts() {
    let tokens = ea_compiler::tokenize("(a + (b * c)) - d").unwrap();
    let a = ExpressionComplexityAnalyzer::analyze_complexity(&tokens);
    assert_eq!(a.max_nesting_depth, 2);
    assert_eq!(a.operator_count, 3);
    assert_eq!(a.identifier_count, 4);
    assert_eq!(a.token_count, 12);
    assert!(a.suggestions.is_empty());
}

#[test]
fn closing_parentheses_first_wrap_the_depth() {
    let tokens = ea_compiler::tokenize(")) (").unwrap();
    let a = ExpressionComplexityAnalyzer::analyze_complexity(&tokens);
    assert_eq!(a.max_nesting_depth, usize::MAX);
    assert_eq!(a.suggestions, vec![
        "Consider breaking down deeply nested expressions into multiple statements".to_string()
    ]);
}

#[test]
fn long_expressions_get_suggestions() {
    let source = vec!["x"; 60].join(" + ");
    let tokens = ea_compiler::tokenize(&source).unwrap();
    let a = ExpressionComplexityAnalyzer::analyze_complexity(&tokens);
    assert_eq!(a.operator_count, 59);
    assert_eq!(a.token_count, 120);
    assert_eq!(a.suggestions, vec![
        "Consider using intermediate variables to simplify complex expressions".to_string(),
        "Large expression detected. Consider using functions or breaking into smaller parts".to_string(),
    ]);
}
