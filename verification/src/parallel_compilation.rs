//! Parallel compilation: jobs, their results, configuration and statistics, and
//! the decisions that the worker pool makes. Running the workers on threads is
//! the caller's work.

use vstd::prelude::*;
use crate::ast::Stmt;
use crate::error::{error_text, CompileError};
use crate::text::{push_str, push_string};

verus! {

/// A compilation job for parallel processing.
#[derive(Debug, Clone)]
pub struct CompilationJob {
    /// File path to compile
    pub file_path: String,
    /// Source code content
    pub source: String,
    /// Job priority (higher = more important)
    pub priority: u32,
    /// Dependencies that must be compiled first
    pub dependencies: Vec<String>,
    /// Job ID for tracking
    pub job_id: u64,
}

/// The result of a parallel compilation job; `T` is what type checking produced.
#[derive(Debug)]
pub struct CompilationResult<T> {
    /// Job ID
    pub job_id: u64,
    /// File path that was compiled
    pub file_path: String,
    /// Compiled AST
    pub ast: Vec<Stmt>,
    /// Type checking result
    pub type_context: T,
    /// Compilation time, in nanoseconds
    pub compilation_time: u64,
    /// Success flag
    pub success: bool,
    /// Error message if compilation failed
    pub error_message: Option<String>,
}

/// Parallel compilation configuration.
#[derive(Debug, Clone)]
pub struct ParallelConfig {
    /// Number of worker threads (0 = one per available CPU)
    pub num_threads: usize,
    /// Maximum number of jobs in the queue
    pub max_queue_size: usize,
    /// Enable work stealing between threads
    pub enable_work_stealing: bool,
    /// Enable job prioritization
    pub enable_job_prioritization: bool,
    /// Maximum compilation time per job (in seconds)
    pub max_job_time_seconds: u64,
}

impl Default for ParallelConfig {
    fn default() -> (c: Self)
        ensures
            c.num_threads == 0,
            c.max_queue_size == 1000,
            c.enable_work_stealing,
            c.enable_job_prioritization,
            c.max_job_time_seconds == 60,
    {
        ParallelConfig {
            num_threads: 0,
            max_queue_size: 1000,
            enable_work_stealing: true,
            enable_job_prioritization: true,
            max_job_time_seconds: 60,
        }
    }
}

/// Statistics for parallel compilation; times are in nanoseconds.
#[derive(Debug, Clone, Copy, PartialEq, Eq, Structural)]
pub struct ParallelStats {
    /// Total jobs processed
    pub total_jobs: u64,
    /// Jobs completed successfully
    pub successful_jobs: u64,
    /// Jobs that failed
    pub failed_jobs: u64,
    /// Total compilation time across all threads
    pub total_compilation_time: u64,
    /// Wall-clock time for parallel compilation
    pub wall_clock_time: u64,
    /// Number of threads used
    pub threads_used: usize,
    /// Average job completion time
    pub average_job_time: u64,
    /// Peak memory usage
    pub peak_memory_usage: u64,
}

impl Default for ParallelStats {
    fn default() -> (s: Self)
        ensures
            s == ParallelStats::zero(),
    {
        ParallelStats {
            total_jobs: 0,
            successful_jobs: 0,
            failed_jobs: 0,
            total_compilation_time: 0,
            wall_clock_time: 0,
            threads_used: 0,
            average_job_time: 0,
            peak_memory_usage: 0,
        }
    }
}

impl ParallelStats {
    /// Statistics with every count at zero.
    pub open spec fn zero() -> ParallelStats {
        ParallelStats {
            total_jobs: 0,
            successful_jobs: 0,
            failed_jobs: 0,
            total_compilation_time: 0,
            wall_clock_time: 0,
            threads_used: 0,
            average_job_time: 0,
            peak_memory_usage: 0,
        }
    }

    /// Counts a finished job: one more job, successful or failed, its time added
    /// to the total, and the average taken again (the total over the number of
    /// jobs, rounded down).
    pub fn record_job(&mut self, success: bool, compilation_time: u64)
        requires
            old(self).total_jobs < u32::MAX,
            old(self).successful_jobs < u64::MAX,
            old(self).failed_jobs < u64::MAX,
            old(self).total_compilation_time + compilation_time <= u64::MAX,
        ensures
            final(self).total_jobs == old(self).total_jobs + 1,
            final(self).total_compilation_time == old(self).total_compilation_time
                + compilation_time,
            final(self).average_job_time == final(self).total_compilation_time
                / final(self).total_jobs,
            final(self).successful_jobs == old(self).successful_jobs + (if success {
                1int
            } else {
                0int
            }),
            final(self).failed_jobs == old(self).failed_jobs + (if success {
                0int
            } else {
                1int
            }),
            final(self).wall_clock_time == old(self).wall_clock_time,
            final(self).threads_used == old(self).threads_used,
            final(self).peak_memory_usage == old(self).peak_memory_usage,
    {
        self.total_jobs = self.total_jobs + 1;
        self.total_compilation_time = self.total_compilation_time + compilation_time;
        self.average_job_time = self.total_compilation_time / self.total_jobs;
        if success {
            self.successful_jobs = self.successful_jobs + 1;
        } else {
            self.failed_jobs = self.failed_jobs + 1;
        }
    }
}

/// The number of available CPUs (`num_cpus::get`), which its documentation
/// promises is at least one; nothing else is claimed of it.
#[verifier::external_body]
fn available_cpus() -> (n: usize)
    ensures
        n >= 1,
{
    num_cpus::get()
}

/// The number of worker threads for a configuration: the configured number, or
/// one per available CPU when it is zero.
pub fn worker_count(config: &ParallelConfig) -> (n: usize)
    ensures
        config.num_threads != 0 ==> n == config.num_threads,
        n >= 1,
{
    if config.num_threads == 0 {
        available_cpus()
    } else {
        config.num_threads
    }
}

/// The message of a job whose compilation failed with an error.
pub open spec fn failure_text(e: CompileError) -> Seq<char> {
    "Compilation error: "@ + error_text(e)
}

/// The message of a job whose compilation failed with an error (see
/// [`failure_text`]).
pub fn failure_message(e: &CompileError) -> (s: String)
    ensures
        s@ == failure_text(*e),
{
    let mut s = String::new();
    push_str(&mut s, "Compilation error: ");
    let text = e.to_string();
    push_string(&mut s, &text);
    proof {
        reveal_strlit("Compilation error: ");
    }
    s
}

/// The message of a job whose compilation panicked.
pub fn panic_message() -> (s: String)
    ensures
        s@ == "Compilation panicked"@,
{
    "Compilation panicked".to_owned()
}

} // verus!
