use ea_compiler::error::CompileError;
use ea_compiler::parallel_compilation::{
    failure_message, panic_message, worker_count, CompilationJob, ParallelConfig, ParallelStats,
};

#[test]
fn test_parallel_config_default() {
    let config = ParallelConfig::default();
    assert_eq!(config.num_threads, 0);
    assert!(config.enable_work_stealing);
    assert!(config.enable_job_prioritization);
}

#[test]
fn test_compilation_job_creation() {
    let job = CompilationJob {
        file_path: "test.ea".to_string(),
        source: "func main() {}".to_string(),
        priority: 1,
        dependencies: Vec::new(),
        job_id: 123,
    };

    assert_eq!(job.job_id, 123);
    assert_eq!(job.priority, 1);
    assert!(job.dependencies.is_empty());
}

#[test]
fn finished_jobs_are_counted() {
    let mut stats = ParallelStats::default();
    stats.record_job(true, 3_000);
    stats.record_job(false, 4_000);
    stats.record_job(true, 4_000);
    assert_eq!(stats.total_jobs, 3);
    assert_eq!(stats.successful_jobs, 2);
    assert_eq!(stats.failed_jobs, 1);
    assert_eq!(stats.total_compilation_time, 11_000);
    assert_eq!(stats.average_job_time, 3_666);
}

#[test]
fn worker_counts() {
    let mut config = ParallelConfig::default();
    assert!(worker_count(&config) >= 1);
    config.num_threads = 3;
    assert_eq!(worker_count(&config), 3);
}

#[test]
fn failure_messages() {
    let e = CompileError::codegen_error("boom".to_string(), None);
    assert_eq!(failure_message(&e), "Compilation error: Code generation error: boom");
    assert_eq!(panic_message(), "Compilation panicked");
}
