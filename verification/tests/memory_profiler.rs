use ea_compiler::memory_profiler::{CompilationPhase, MemoryError, MemoryProfiler};

#[test]
fn test_memory_profiler_basic() {
    let mut profiler = MemoryProfiler::new();

    profiler.record_usage(CompilationPhase::Lexing, 1024, "Test allocation".to_string());
    profiler.record_usage(CompilationPhase::Parsing, 2048, "Parser allocation".to_string());

    assert_eq!(profiler.get_total_usage(), 3072);
    assert_eq!(profiler.timeline_len(), 2);
}

#[test]
fn test_memory_limit_check() {
    let mut profiler = MemoryProfiler::new();
    profiler.set_memory_limit(1024);

    profiler.record_usage(CompilationPhase::Lexing, 512, "Small allocation".to_string());
    assert!(profiler.check_memory_limit().is_ok());

    profiler.record_usage(CompilationPhase::Parsing, 1024, "Large allocation".to_string());
    assert!(profiler.check_memory_limit().is_err());
}

#[test]
fn limit_error_names_the_phase() {
    let mut profiler = MemoryProfiler::new();
    profiler.set_memory_limit(100);
    profiler.record_usage(CompilationPhase::TypeChecking, 150, "x".to_string());
    match profiler.check_memory_limit() {
        Err(e) => {
            assert!(matches!(e, MemoryError::LimitExceeded { current: 150, limit: 100, .. }));
            assert_eq!(
                e.message(),
                "Memory limit exceeded: 150 bytes used, limit is 100 bytes (phase: TypeChecking)"
            );
        }
        Ok(()) => panic!("expected the limit to be exceeded"),
    }
}

#[test]
fn usage_is_replaced_and_peaks_kept() {
    let mut profiler = MemoryProfiler::new();
    profiler.record_usage(CompilationPhase::Lexing, 500, "a".to_string());
    profiler.record_usage(CompilationPhase::Lexing, 200, "b".to_string());
    assert_eq!(profiler.get_total_usage(), 200);
    let stats = profiler.get_stats();
    assert_eq!(stats.current_usage, 200);
    assert_eq!(stats.peak_usage, 500);
    assert_eq!(stats.total_allocations, 700);
    assert_eq!(stats.timeline.len(), 2);
    assert_eq!(profiler.get_current_phase(), CompilationPhase::Lexing);
    profiler.reset();
    assert_eq!(profiler.get_total_usage(), 0);
    assert_eq!(profiler.timeline_len(), 0);
}

#[test]
fn report_lists_usage_in_mebibytes() {
    let mut profiler = MemoryProfiler::new();
    profiler.record_usage(CompilationPhase::Parsing, 1048576, "one MiB".to_string());
    let report = profiler.generate_report();
    assert!(report.starts_with("=== Memory Usage Report ===\nTotal Memory Usage: 1.00 MB\n"));
    assert!(report.contains("Memory Limit: 1024.00 MB\n"));
    assert!(report.contains("Total Allocations: 1048576\n"));
    assert!(report.contains("Parsing"));
}

#[test]
fn progress_records_each_full_hundred_and_checks_the_limit() {
    let mut profiler = MemoryProfiler::new();
    let result = profiler.record_progress(
        CompilationPhase::Parsing,
        250,
        8,
        100,
        "Parsing progress: ",
        " statements",
    );
    assert!(result.is_ok());
    let stats = profiler.get_stats();
    assert_eq!(stats.timeline.len(), 2);
    assert_eq!(stats.timeline[0].memory_usage, 800);
    assert_eq!(stats.timeline[0].description, "Parsing progress: 100 statements");
    assert_eq!(stats.timeline[1].memory_usage, 1600);
    assert_eq!(stats.timeline[1].description, "Parsing progress: 200 statements");
    assert_eq!(stats.current_usage, 1600);
    assert_eq!(stats.total_allocations, 2400);
}

#[test]
fn progress_stops_at_the_first_check_over_the_limit() {
    let mut profiler = MemoryProfiler::new();
    profiler.set_memory_limit(1000);
    let result = profiler.record_progress(CompilationPhase::Parsing, 500, 8, 100, "p ", " s");
    match result {
        Err(MemoryError::LimitExceeded { current, limit, phase }) => {
            assert_eq!(current, 1600);
            assert_eq!(limit, 1000);
            assert_eq!(phase, CompilationPhase::Parsing);
        }
        other => panic!("expected the limit to be exceeded, got {:?}", other),
    }
    assert_eq!(profiler.timeline_len(), 2);
}
