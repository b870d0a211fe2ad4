//! Memory profiling of the compilation phases: per-phase usage, peaks, a timeline
//! of recorded events and a limit check.

use vstd::prelude::*;
use std::time::Instant;
use crate::text::{
    decimal_text, fixed2_text, mib_text, push_decimal, push_fixed2, push_mib, push_str, push_string,
    round_half_even,
};

verus! {

/// The monotonic clock reading of the standard library, carried through opaquely.
#[verifier::external_type_specification]
#[verifier::external_body]
pub struct ExInstant(Instant);

/// Reads the monotonic clock (`Instant::now`); nothing is promised of the reading.
#[verifier::external_body]
pub(crate) fn clock_now() -> (t: Instant) {
    Instant::now()
}

/// The whole nanoseconds from `earlier` to `later` (`Instant::duration_since`,
/// zero when `later` is the earlier reading); nothing is promised of the value.
#[verifier::external_body]
pub(crate) fn nanos_between(later: &Instant, earlier: &Instant) -> (n: u64) {
    later.duration_since(*earlier).as_nanos() as u64
}

/// Compilation phases for memory tracking.
#[derive(Debug, Clone, Copy, PartialEq, Eq, Hash, Structural)]
pub enum CompilationPhase {
    Lexing,
    Parsing,
    TypeChecking,
    CodeGeneration,
    Optimization,
    Linking,
    JIT,
    Total,
}

/// The number of compilation phases.
pub const PHASE_COUNT: usize = 8;

/// The slot of a phase in per-phase tables.
pub open spec fn phase_index(p: CompilationPhase) -> nat {
    match p {
        CompilationPhase::Lexing => 0,
        CompilationPhase::Parsing => 1,
        CompilationPhase::TypeChecking => 2,
        CompilationPhase::CodeGeneration => 3,
        CompilationPhase::Optimization => 4,
        CompilationPhase::Linking => 5,
        CompilationPhase::JIT => 6,
        CompilationPhase::Total => 7,
    }
}

/// The phase in a slot of a per-phase table.
pub open spec fn phase_at(i: nat) -> CompilationPhase {
    if i == 0 {
        CompilationPhase::Lexing
    } else if i == 1 {
        CompilationPhase::Parsing
    } else if i == 2 {
        CompilationPhase::TypeChecking
    } else if i == 3 {
        CompilationPhase::CodeGeneration
    } else if i == 4 {
        CompilationPhase::Optimization
    } else if i == 5 {
        CompilationPhase::Linking
    } else if i == 6 {
        CompilationPhase::JIT
    } else {
        CompilationPhase::Total
    }
}

/// The name of a phase as `{:?}` writes it.
pub open spec fn phase_name(p: CompilationPhase) -> Seq<char> {
    match p {
        CompilationPhase::Lexing => "Lexing"@,
        CompilationPhase::Parsing => "Parsing"@,
        CompilationPhase::TypeChecking => "TypeChecking"@,
        CompilationPhase::CodeGeneration => "CodeGeneration"@,
        CompilationPhase::Optimization => "Optimization"@,
        CompilationPhase::Linking => "Linking"@,
        CompilationPhase::JIT => "JIT"@,
        CompilationPhase::Total => "Total"@,
    }
}

impl CompilationPhase {
    /// The slot of this phase in per-phase tables.
    pub fn index(self) -> (i: usize)
        ensures
            i == phase_index(self),
            i < PHASE_COUNT,
    {
        match self {
            CompilationPhase::Lexing => 0,
            CompilationPhase::Parsing => 1,
            CompilationPhase::TypeChecking => 2,
            CompilationPhase::CodeGeneration => 3,
            CompilationPhase::Optimization => 4,
            CompilationPhase::Linking => 5,
            CompilationPhase::JIT => 6,
            CompilationPhase::Total => 7,
        }
    }

    /// The phase in a slot of a per-phase table.
    pub fn from_index(i: usize) -> (p: CompilationPhase)
        requires
            i < PHASE_COUNT,
        ensures
            p == phase_at(i as nat),
            phase_index(p) == i,
    {
        if i == 0 {
            CompilationPhase::Lexing
        } else if i == 1 {
            CompilationPhase::Parsing
        } else if i == 2 {
            CompilationPhase::TypeChecking
        } else if i == 3 {
            CompilationPhase::CodeGeneration
        } else if i == 4 {
            CompilationPhase::Optimization
        } else if i == 5 {
            CompilationPhase::Linking
        } else if i == 6 {
            CompilationPhase::JIT
        } else {
            CompilationPhase::Total
        }
    }

    /// The name of this phase as `{:?}` writes it.
    pub fn name(self) -> (s: &'static str)
        ensures
            s@ == phase_name(self),
    {
        match self {
            CompilationPhase::Lexing => "Lexing",
            CompilationPhase::Parsing => "Parsing",
            CompilationPhase::TypeChecking => "TypeChecking",
            CompilationPhase::CodeGeneration => "CodeGeneration",
            CompilationPhase::Optimization => "Optimization",
            CompilationPhase::Linking => "Linking",
            CompilationPhase::JIT => "JIT",
            CompilationPhase::Total => "Total",
        }
    }
}

/// Memory snapshot at a specific point in time.
#[derive(Debug)]
pub struct MemorySnapshot {
    pub timestamp: Instant,
    pub phase: CompilationPhase,
    pub memory_usage: usize,
    pub description: String,
}

impl Clone for MemorySnapshot {
    fn clone(&self) -> (c: Self)
        ensures
            c == *self,
    {
        MemorySnapshot {
            timestamp: self.timestamp,
            phase: self.phase,
            memory_usage: self.memory_usage,
            description: self.description.clone(),
        }
    }
}

/// Memory usage statistics.
#[derive(Debug)]
pub struct MemoryStats {
    pub current_usage: usize,
    pub peak_usage: usize,
    pub total_allocations: usize,
    pub timeline: Vec<MemorySnapshot>,
}

/// Memory-related errors.
#[derive(Debug)]
pub enum MemoryError {
    LimitExceeded { current: usize, limit: usize, phase: CompilationPhase },
    AllocationFailed { message: String },
    CorruptionDetected { details: String },
}

/// The message of a memory error.
pub open spec fn memory_error_text(e: MemoryError) -> Seq<char> {
    match e {
        MemoryError::LimitExceeded { current, limit, phase } => "Memory limit exceeded: "@
            + decimal_text(current as nat) + " bytes used, limit is "@ + decimal_text(
            limit as nat,
        ) + " bytes (phase: "@ + phase_name(phase) + ")"@,
        MemoryError::AllocationFailed { message } => "Memory allocation failed: "@ + message@,
        MemoryError::CorruptionDetected { details } => "Memory corruption detected: "@
            + details@,
    }
}

impl MemoryError {
    /// The message of this error.
    pub fn message(&self) -> (s: String)
        ensures
            s@ == memory_error_text(*self),
    {
        let mut s = String::new();
        match self {
            MemoryError::LimitExceeded { current, limit, phase } => {
                push_str(&mut s, "Memory limit exceeded: ");
                push_decimal(&mut s, *current as u64);
                push_str(&mut s, " bytes used, limit is ");
                push_decimal(&mut s, *limit as u64);
                push_str(&mut s, " bytes (phase: ");
                push_str(&mut s, phase.name());
                push_str(&mut s, ")");
            },
            MemoryError::AllocationFailed { message } => {
                push_str(&mut s, "Memory allocation failed: ");
                push_string(&mut s, message);
            },
            MemoryError::CorruptionDetected { details } => {
                push_str(&mut s, "Memory corruption detected: ");
                push_string(&mut s, details);
            },
        }
        assert(s@ =~= memory_error_text(*self));
        s
    }
}

/// The value of an optional count, zero when absent.
pub open spec fn opt_value(o: Option<usize>) -> nat {
    match o {
        Some(v) => v as nat,
        None => 0,
    }
}

/// The sum of the present values of a table.
pub open spec fn sum_present(s: Seq<Option<usize>>) -> nat
    decreases s.len(),
{
    if s.len() == 0 {
        0
    } else {
        sum_present(s.drop_last()) + opt_value(s.last())
    }
}

/// The default memory limit: one gibibyte.
pub const DEFAULT_MEMORY_LIMIT: usize = 1073741824;

/// Memory profiler for tracking compilation phase memory usage.
#[derive(Debug)]
pub struct MemoryProfiler {
    /// Current memory usage by compilation phase, indexed by `phase_index`
    phase_usage: Vec<Option<usize>>,
    /// Peak memory usage by phase, indexed by `phase_index`
    peak_usage: Vec<Option<usize>>,
    /// Total memory allocations
    total_allocations: usize,
    /// Memory usage timeline
    timeline: Vec<MemorySnapshot>,
    /// Memory limit (in bytes)
    memory_limit: usize,
    /// Start time for current compilation
    start_time: Instant,
}

/// The report line of one phase.
pub open spec fn phase_line(p: CompilationPhase, usage: usize, peak: Option<usize>) -> Seq<char> {
    "  "@ + phase_name(p) + ": "@ + mib_text(usage as nat) + " MB (peak: "@ + mib_text(
        opt_value(peak),
    ) + " MB)\n"@
}

/// The report lines of the phases from slot `i` on that have a recorded usage.
pub open spec fn phase_lines(usage: Seq<Option<usize>>, peak: Seq<Option<usize>>, i: nat) -> Seq<
    char,
>
    decreases usage.len() - i,
{
    if i >= usage.len() {
        Seq::empty()
    } else {
        (match usage[i as int] {
            Some(u) => phase_line(phase_at(i), u, peak[i as int]),
            None => Seq::empty(),
        }) + phase_lines(usage, peak, i + 1)
    }
}

/// The report line of one timeline event, given the elapsed time in hundredths of a second.
pub open spec fn event_line(s: MemorySnapshot, elapsed_hundredths: nat) -> Seq<char> {
    "  "@ + fixed2_text(elapsed_hundredths) + "s - "@ + phase_name(s.phase) + ": "@ + mib_text(
        s.memory_usage as nat,
    ) + " MB - "@ + s.description@
}

/// The report lines of the newest `count` events, newest first; `secs[k]` is the
/// elapsed time of the `k`-th line.
pub open spec fn event_lines(timeline: Seq<MemorySnapshot>, secs: Seq<nat>, count: nat) -> Seq<
    char,
>
    decreases count,
{
    if count == 0 {
        Seq::empty()
    } else {
        event_lines(timeline, secs, (count - 1) as nat) + event_line(
            timeline[timeline.len() - count],
            secs[count - 1],
        ) + "\n"@
    }
}

impl MemoryProfiler {
    /// The per-phase tables have a slot for every phase.
    pub closed spec fn wf(self) -> bool {
        &&& self.phase_usage.len() == PHASE_COUNT
        &&& self.peak_usage.len() == PHASE_COUNT
    }

    /// The usage last recorded for a phase, if any.
    pub closed spec fn usage_of(self, p: CompilationPhase) -> Option<usize> {
        self.phase_usage@[phase_index(p) as int]
    }

    /// The highest usage recorded for a phase, if any.
    pub closed spec fn peak_of(self, p: CompilationPhase) -> Option<usize> {
        self.peak_usage@[phase_index(p) as int]
    }

    /// The current usage of all phases together.
    pub closed spec fn total_usage(self) -> nat {
        sum_present(self.phase_usage@)
    }

    /// The peak usage of all phases together.
    pub closed spec fn total_peak(self) -> nat {
        sum_present(self.peak_usage@)
    }

    /// The sum of all recorded usages since the last reset.
    pub closed spec fn allocations(self) -> nat {
        self.total_allocations as nat
    }

    /// The recorded events, oldest first.
    pub closed spec fn events(self) -> Seq<MemorySnapshot> {
        self.timeline@
    }

    /// The memory limit in bytes.
    pub closed spec fn limit(self) -> nat {
        self.memory_limit as nat
    }

    /// The phase of the latest event, or `Total` when nothing was recorded.
    pub open spec fn current_phase(self) -> CompilationPhase {
        if self.events().len() == 0 {
            CompilationPhase::Total
        } else {
            self.events().last().phase
        }
    }

    /// The report text, given the elapsed time of each listed event.
    pub closed spec fn report_text(self, secs: Seq<nat>) -> Seq<char> {
        let n = if self.timeline@.len() < 10 {
            self.timeline@.len()
        } else {
            10
        };
        "=== Memory Usage Report ===\n"@ + "Total Memory Usage: "@ + mib_text(self.total_usage())
            + " MB\n"@ + "Memory Limit: "@ + mib_text(self.memory_limit as nat) + " MB\n"@
            + "Total Allocations: "@ + decimal_text(self.total_allocations as nat) + "\n"@
            + "\nMemory Usage by Phase:\n"@ + phase_lines(self.phase_usage@, self.peak_usage@, 0)
            + "\nMemory Timeline (last 10 events):\n"@ + event_lines(self.timeline@, secs, n)
    }

    /// Creates a profiler with nothing recorded and a one-gibibyte limit.
    pub fn new() -> (p: Self)
        ensures
            p.wf(),
            forall|ph: CompilationPhase| p.usage_of(ph) is None && p.peak_of(ph) is None,
            p.total_usage() == 0,
            p.total_peak() == 0,
            p.allocations() == 0,
            p.events() == Seq::<MemorySnapshot>::empty(),
            p.limit() == DEFAULT_MEMORY_LIMIT,
    {
        let v: Vec<Option<usize>> = vec![None, None, None, None, None, None, None, None];
        let p = MemoryProfiler {
            phase_usage: v.clone(),
            peak_usage: v,
            total_allocations: 0,
            timeline: Vec::new(),
            memory_limit: DEFAULT_MEMORY_LIMIT,
            start_time: clock_now(),
        };
        proof {
            lemma_sum_all_none(p.phase_usage@);
            lemma_sum_all_none(p.peak_usage@);
        }
        p
    }

    /// Sets the memory limit in bytes.
    pub fn set_memory_limit(&mut self, limit: usize)
        requires
            old(self).wf(),
        ensures
            final(self).wf(),
            final(self).limit() == limit,
            forall|ph: CompilationPhase|
                final(self).usage_of(ph) == old(self).usage_of(ph) && final(self).peak_of(ph)
                    == old(self).peak_of(ph),
            final(self).total_usage() == old(self).total_usage(),
            final(self).total_peak() == old(self).total_peak(),
            final(self).allocations() == old(self).allocations(),
            final(self).events() == old(self).events(),
    {
        self.memory_limit = limit;
    }

    /// Records the memory usage of a phase: it becomes the phase's current usage,
    /// raises its peak when higher, is added to the allocations and is appended to
    /// the timeline.
    pub fn record_usage(&mut self, phase: CompilationPhase, usage: usize, description: String)
        requires
            old(self).wf(),
            old(self).allocations() + usage <= usize::MAX,
        ensures
            final(self).wf(),
            final(self).usage_of(phase) == Some(usage),
            final(self).peak_of(phase) == (if usage > opt_value(old(self).peak_of(phase)) {
                Some(usage)
            } else {
                old(self).peak_of(phase)
            }),
            forall|ph: CompilationPhase|
                ph != phase ==> final(self).usage_of(ph) == old(self).usage_of(ph)
                    && final(self).peak_of(ph) == old(self).peak_of(ph),
            final(self).total_usage() == old(self).total_usage() - opt_value(
                old(self).usage_of(phase),
            ) + usage,
            final(self).allocations() == old(self).allocations() + usage,
            final(self).events().len() == old(self).events().len() + 1,
            final(self).events().drop_last() == old(self).events(),
            final(self).events().last().phase == phase,
            final(self).events().last().memory_usage == usage,
            final(self).events().last().description == description,
            final(self).limit() == old(self).limit(),
    {
        let i = phase.index();
        let ghost old_usage = self.phase_usage@;
        self.phase_usage = with_slot(&self.phase_usage, i, Some(usage));
        proof {
            lemma_sum_update(old_usage, i as int, Some(usage));
        }
        let current_peak = match self.peak_usage[i] {
            Some(p) => p,
            None => 0,
        };
        if usage > current_peak {
            self.peak_usage = with_slot(&self.peak_usage, i, Some(usage));
        }
        let snapshot = MemorySnapshot {
            timestamp: clock_now(),
            phase,
            memory_usage: usage,
            description,
        };
        self.timeline.push(snapshot);
        self.total_allocations = self.total_allocations + usage;
        proof {
            assert forall|ph: CompilationPhase| ph != phase implies phase_index(ph) != phase_index(
                phase,
            ) by {}
            assert(self.timeline@.drop_last() =~= old(self).timeline@);
        }
    }

    /// Checks that the current usage of all phases is within the limit.
    pub fn check_memory_limit(&self) -> (r: Result<(), MemoryError>)
        requires
            self.wf(),
            self.total_usage() <= usize::MAX,
        ensures
            r is Ok <==> self.total_usage() <= self.limit(),
            r is Err ==> r == Err::<(), MemoryError>(
                MemoryError::LimitExceeded {
                    current: self.total_usage() as usize,
                    limit: self.limit() as usize,
                    phase: self.current_phase(),
                },
            ),
    {
        let total_usage = self.get_total_usage();
        if total_usage > self.memory_limit {
            Err(
                MemoryError::LimitExceeded {
                    current: total_usage,
                    limit: self.memory_limit,
                    phase: self.get_current_phase(),
                },
            )
        } else {
            Ok(())
        }
    }

    /// The current usage of all phases together.
    pub fn get_total_usage(&self) -> (t: usize)
        requires
            self.wf(),
            self.total_usage() <= usize::MAX,
        ensures
            t == self.total_usage(),
    {
        sum_table(&self.phase_usage)
    }

    /// The phase of the latest recorded event, or `Total` when none was recorded.
    pub fn get_current_phase(&self) -> (p: CompilationPhase)
        ensures
            p == self.current_phase(),
    {
        let n = self.timeline.len();
        if n == 0 {
            CompilationPhase::Total
        } else {
            self.timeline[n - 1].phase
        }
    }

    /// The usage statistics: current and peak usage summed over phases, the total
    /// allocations and a copy of the timeline.
    pub fn get_stats(&self) -> (s: MemoryStats)
        requires
            self.wf(),
            self.total_usage() <= usize::MAX,
            self.total_peak() <= usize::MAX,
        ensures
            s.current_usage == self.total_usage(),
            s.peak_usage == self.total_peak(),
            s.total_allocations == self.allocations(),
            s.timeline@ == self.events(),
    {
        let mut timeline: Vec<MemorySnapshot> = Vec::new();
        let n = self.timeline.len();
        for k in 0..n
            invariant
                n == self.timeline@.len(),
                timeline@ == self.timeline@.take(k as int),
        {
            timeline.push(self.timeline[k].clone());
            assert(timeline@ =~= self.timeline@.take(k + 1));
        }
        assert(timeline@ =~= self.timeline@);
        MemoryStats {
            current_usage: self.get_total_usage(),
            peak_usage: sum_table(&self.peak_usage),
            total_allocations: self.total_allocations,
            timeline,
        }
    }

    /// Resets the profiler for a new compilation; the limit is kept.
    pub fn reset(&mut self)
        requires
            old(self).wf(),
        ensures
            final(self).wf(),
            forall|ph: CompilationPhase|
                final(self).usage_of(ph) is None && final(self).peak_of(ph) is None,
            final(self).total_usage() == 0,
            final(self).total_peak() == 0,
            final(self).allocations() == 0,
            final(self).events() == Seq::<MemorySnapshot>::empty(),
            final(self).limit() == old(self).limit(),
    {
        let v: Vec<Option<usize>> = vec![None, None, None, None, None, None, None, None];
        self.phase_usage = v.clone();
        self.peak_usage = v;
        self.total_allocations = 0;
        self.timeline = Vec::new();
        self.start_time = clock_now();
        proof {
            lemma_sum_all_none(self.phase_usage@);
            lemma_sum_all_none(self.peak_usage@);
        }
    }

    /// The memory usage report: totals in mebibytes with two decimals, the usage and
    /// peak of each phase with a recorded usage, and the newest ten events, newest
    /// first, each with its time since the start of the compilation.
    pub fn generate_report(&self) -> (r: String)
        requires
            self.wf(),
            self.total_usage() <= usize::MAX,
        ensures
            exists|secs: Seq<nat>| r@ == self.report_text(secs),
    {
        let mut report = String::new();
        push_str(&mut report, "=== Memory Usage Report ===\n");
        push_str(&mut report, "Total Memory Usage: ");
        push_mib(&mut report, self.get_total_usage());
        push_str(&mut report, " MB\n");
        push_str(&mut report, "Memory Limit: ");
        push_mib(&mut report, self.memory_limit);
        push_str(&mut report, " MB\n");
        push_str(&mut report, "Total Allocations: ");
        push_decimal(&mut report, self.total_allocations as u64);
        push_str(&mut report, "\n");
        push_str(&mut report, "\nMemory Usage by Phase:\n");
        let ghost head = report@;
        let mut i: usize = 0;
        while i < PHASE_COUNT
            invariant
                i <= PHASE_COUNT,
                self.phase_usage@.len() == PHASE_COUNT,
                self.peak_usage@.len() == PHASE_COUNT,
                report@ + phase_lines(self.phase_usage@, self.peak_usage@, i as nat) == head
                    + phase_lines(self.phase_usage@, self.peak_usage@, 0),
            decreases PHASE_COUNT - i,
        {
            let ghost before = report@;
            match self.phase_usage[i] {
                Some(usage) => {
                    let peak = self.peak_usage[i];
                    let ph = CompilationPhase::from_index(i);
                    push_str(&mut report, "  ");
                    push_str(&mut report, ph.name());
                    push_str(&mut report, ": ");
                    push_mib(&mut report, usage);
                    push_str(&mut report, " MB (peak: ");
                    match peak {
                        Some(pk) => push_mib(&mut report, pk),
                        None => push_mib(&mut report, 0),
                    }
                    push_str(&mut report, " MB)\n");
                    assert(report@ =~= before + phase_line(ph, usage, peak));
                },
                None => {},
            }
            i = i + 1;
            proof {
                assert(before + phase_lines(self.phase_usage@, self.peak_usage@, (i - 1) as nat)
                    =~= report@ + phase_lines(self.phase_usage@, self.peak_usage@, i as nat));
            }
        }
        assert(phase_lines(self.phase_usage@, self.peak_usage@, PHASE_COUNT as nat) =~= Seq::<
            char,
        >::empty());
        push_str(&mut report, "\nMemory Timeline (last 10 events):\n");
        let ghost mid = report@;
        let len = self.timeline.len();
        let n: usize = if len < 10 {
            len
        } else {
            10
        };
        let mut k: usize = 0;
        let ghost mut secs: Seq<nat> = Seq::empty();
        while k < n
            invariant
                k <= n,
                n <= len,
                len == self.timeline@.len(),
                secs.len() == k,
                report@ == mid + event_lines(self.timeline@, secs, k as nat),
            decreases n - k,
        {
            let ghost before = report@;
            let snapshot = &self.timeline[len - 1 - k];
            let elapsed = nanos_between(&snapshot.timestamp, &self.start_time);
            let hundredths = round_half_even(elapsed as u128, 10000000);
            push_str(&mut report, "  ");
            push_fixed2(&mut report, hundredths as u64);
            push_str(&mut report, "s - ");
            push_str(&mut report, snapshot.phase.name());
            push_str(&mut report, ": ");
            push_mib(&mut report, snapshot.memory_usage);
            push_str(&mut report, " MB - ");
            push_string(&mut report, &snapshot.description);
            push_str(&mut report, "\n");
            proof {
                let ghost old_secs = secs;
                secs = secs.push(hundredths as nat);
                assert(old_secs =~= secs.take(k as int));
                lemma_event_lines_prefix(self.timeline@, old_secs, secs, k as nat);
                assert(report@ =~= before + event_line(
                    self.timeline@[self.timeline@.len() - (k + 1)],
                    secs[k as int],
                ) + "\n"@);
            }
            k = k + 1;
        }
        assert(report@ =~= self.report_text(secs));
        report
    }

    /// The number of events on the timeline.
    pub fn timeline_len(&self) -> (n: usize)
        ensures
            n == self.events().len(),
    {
        self.timeline.len()
    }

    /// The memory limit in bytes.
    pub fn get_memory_limit(&self) -> (l: usize)
        ensures
            l == self.limit(),
    {
        self.memory_limit
    }

    /// The sum of all recorded usages since the last reset.
    pub fn total_allocations(&self) -> (n: usize)
        ensures
            n == self.allocations(),
    {
        self.total_allocations
    }

    /// The current usage of all phases together, when it fits in a `usize`.
    pub fn checked_total_usage(&self) -> (r: Option<usize>)
        ensures
            r == (if self.total_usage() <= usize::MAX {
                Some(self.total_usage() as usize)
            } else {
                None
            }),
    {
        checked_sum_table(&self.phase_usage)
    }
}

/// The sum of the present values of a table, when it fits in a `usize`.
fn checked_sum_table(v: &Vec<Option<usize>>) -> (r: Option<usize>)
    ensures
        r == (if sum_present(v@) <= usize::MAX {
            Some(sum_present(v@) as usize)
        } else {
            None
        }),
{
    let mut t: usize = 0;
    let mut i: usize = 0;
    while i < v.len()
        invariant
            i <= v@.len(),
            t == sum_present(v@.take(i as int)),
        decreases v@.len() - i,
    {
        proof {
            assert(v@.take(i + 1).drop_last() =~= v@.take(i as int));
        }
        match v[i] {
            Some(x) => {
                if x > usize::MAX - t {
                    proof {
                        lemma_sum_prefix_le(v@, (i + 1) as nat);
                    }
                    return None;
                }
                t = t + x;
            },
            None => {},
        }
        i = i + 1;
    }
    assert(v@.take(v@.len() as int) =~= v@);
    Some(t)
}

/// Each phase's peak is at least its current usage.
pub open spec fn peaks_cover(p: MemoryProfiler) -> bool {
    forall|ph: CompilationPhase| opt_value(p.peak_of(ph)) >= opt_value(#[trigger] p.usage_of(ph))
}

/// Recording keeps every phase's peak at or above its current usage: it holds
/// of a new or reset profiler (nothing recorded), and a `record_usage` (as its
/// contract describes the profiler after it) keeps it.
pub proof fn lemma_peaks_cover_usage(
    before: MemoryProfiler,
    after: MemoryProfiler,
    phase: CompilationPhase,
    usage: usize,
)
    requires
        peaks_cover(before),
        after.usage_of(phase) == Some(usage),
        after.peak_of(phase) == (if usage > opt_value(before.peak_of(phase)) {
            Some(usage)
        } else {
            before.peak_of(phase)
        }),
        forall|ph: CompilationPhase|
            ph != phase ==> after.usage_of(ph) == before.usage_of(ph) && after.peak_of(ph)
                == before.peak_of(ph),
    ensures
        peaks_cover(after),
{
    assert forall|ph: CompilationPhase| opt_value(after.peak_of(ph)) >= opt_value(
        #[trigger] after.usage_of(ph),
    ) by {
        if ph != phase {
            assert(opt_value(before.peak_of(ph)) >= opt_value(before.usage_of(ph)));
        }
    }
}

/// A copy of a table with one slot replaced.
fn with_slot(v: &Vec<Option<usize>>, i: usize, x: Option<usize>) -> (r: Vec<Option<usize>>)
    requires
        i < v@.len(),
    ensures
        r@ == v@.update(i as int, x),
{
    let mut r: Vec<Option<usize>> = Vec::new();
    let mut k: usize = 0;
    while k < v.len()
        invariant
            k <= v@.len(),
            i < v@.len(),
            r@ == v@.update(i as int, x).take(k as int),
        decreases v@.len() - k,
    {
        if k == i {
            r.push(x);
        } else {
            r.push(v[k]);
        }
        k = k + 1;
        assert(r@ =~= v@.update(i as int, x).take(k as int));
    }
    assert(r@ =~= v@.update(i as int, x));
    r
}

/// The sum of the present values of a table.
fn sum_table(v: &Vec<Option<usize>>) -> (t: usize)
    requires
        sum_present(v@) <= usize::MAX,
    ensures
        t == sum_present(v@),
{
    let mut t: usize = 0;
    let mut i: usize = 0;
    while i < v.len()
        invariant
            i <= v@.len(),
            t == sum_present(v@.take(i as int)),
            sum_present(v@) <= usize::MAX,
        decreases v@.len() - i,
    {
        proof {
            assert(v@.take(i + 1).drop_last() =~= v@.take(i as int));
            lemma_sum_prefix_le(v@, (i + 1) as nat);
        }
        match v[i] {
            Some(x) => {
                t = t + x;
            },
            None => {},
        }
        i = i + 1;
    }
    assert(v@.take(v@.len() as int) =~= v@);
    t
}

/// A table with nothing present sums to zero.
pub proof fn lemma_sum_all_none(s: Seq<Option<usize>>)
    requires
        forall|i: int| 0 <= i < s.len() ==> s[i] is None,
    ensures
        sum_present(s) == 0,
    decreases s.len(),
{
    if s.len() > 0 {
        lemma_sum_all_none(s.drop_last());
    }
}

/// The sum of a prefix is at most the sum of the whole table.
pub proof fn lemma_sum_prefix_le(s: Seq<Option<usize>>, k: nat)
    requires
        k <= s.len(),
    ensures
        sum_present(s.take(k as int)) <= sum_present(s),
    decreases s.len(),
{
    if k < s.len() {
        assert(s.drop_last().take(k as int) =~= s.take(k as int));
        lemma_sum_prefix_le(s.drop_last(), k);
    } else {
        assert(s.take(k as int) =~= s);
    }
}

/// Replacing one value of a table changes the sum by the difference.
pub proof fn lemma_sum_update(s: Seq<Option<usize>>, i: int, v: Option<usize>)
    requires
        0 <= i < s.len(),
    ensures
        sum_present(s.update(i, v)) == sum_present(s) - opt_value(s[i]) + opt_value(v),
    decreases s.len(),
{
    if i < s.len() - 1 {
        assert(s.update(i, v).drop_last() =~= s.drop_last().update(i, v));
        lemma_sum_update(s.drop_last(), i, v);
    } else {
        assert(s.update(i, v).drop_last() =~= s.drop_last());
    }
}

/// Extending the list of elapsed times keeps the lines already written.
proof fn lemma_event_lines_prefix(t: Seq<MemorySnapshot>, a: Seq<nat>, b: Seq<nat>, k: nat)
    requires
        a.len() >= k,
        b.len() >= k,
        forall|j: int| 0 <= j < k ==> a[j] == b[j],
    ensures
        event_lines(t, a, k) == event_lines(t, b, k),
    decreases k,
{
    if k > 0 {
        lemma_event_lines_prefix(t, a, b, (k - 1) as nat);
    }
}

/// The sum of the usages that `n` progress events of `step` bytes more each
/// record: `step`, `2 * step`, up to `n * step`.
pub open spec fn progress_sum(step: nat, n: nat) -> nat
    decreases n,
{
    if n == 0 {
        0
    } else {
        progress_sum(step, (n - 1) as nat) + n * step
    }
}

/// The description of a progress event after `counted` items.
pub open spec fn progress_text(prefix: Seq<char>, counted: nat, suffix: Seq<char>) -> Seq<char> {
    prefix + decimal_text(counted) + suffix
}

/// More events record more in all.
proof fn lemma_progress_sum_grows(step: nat, a: nat, b: nat)
    requires
        a <= b,
    ensures
        progress_sum(step, a) <= progress_sum(step, b),
    decreases b,
{
    if a < b {
        lemma_progress_sum_grows(step, a, (b - 1) as nat);
    }
}

impl MemoryProfiler {
    /// The usage of all phases together once the usage of `phase` is `usage`.
    pub open spec fn total_with(self, phase: CompilationPhase, usage: nat) -> int {
        self.total_usage() - opt_value(self.usage_of(phase)) + usage
    }

    /// The usage of all phases together once `k` progress events of `step`
    /// bytes more each have set the usage of `phase`.
    pub open spec fn progress_total(self, phase: CompilationPhase, step: nat, k: int) -> int {
        self.total_with(phase, (k * step) as nat)
    }

    /// Records the progress of a phase that has made `count` items of `size`
    /// bytes each: for each full `every` of them, in order, the usage of the
    /// items so far is recorded, described by `prefix`, their number and
    /// `suffix`, and then checked against the limit; the first check that fails
    /// ends the progress with its error.
    #[verifier::rlimit(50)]
    pub fn record_progress(
        &mut self,
        phase: CompilationPhase,
        count: usize,
        size: usize,
        every: usize,
        prefix: &str,
        suffix: &str,
    ) -> (r: Result<(), MemoryError>)
        requires
            old(self).wf(),
            every > 0,
            count * size <= usize::MAX,
            old(self).total_usage() + count * size <= usize::MAX,
            old(self).allocations() + progress_sum((every * size) as nat, (count / every) as nat)
                <= usize::MAX,
        ensures
            final(self).wf(),
            final(self).limit() == old(self).limit(),
            old(self).events().len() <= final(self).events().len() <= old(self).events().len() + count / every,
            final(self).events().subrange(0, old(self).events().len() as int) == old(self).events(),
            forall|k: int|
                old(self).events().len() <= k < final(self).events().len() ==> {
                    let done = k - old(self).events().len() + 1;
                    &&& (#[trigger] final(self).events()[k]).phase == phase
                    &&& final(self).events()[k].memory_usage == done * (every * size)
                    &&& final(self).events()[k].description@ == progress_text(prefix@, (done * every) as nat, suffix@)
                },
            forall|k: int|
                1 <= k < final(self).events().len() - old(self).events().len() ==> #[trigger] old(self).progress_total(phase, (every * size) as nat, k) <= old(self).limit(),
            final(self).allocations() == old(self).allocations() + progress_sum((every * size) as nat, (final(self).events().len() - old(self).events().len()) as nat),
            final(self).events().len() == old(self).events().len() ==> final(self).usage_of(phase) == old(self).usage_of(phase)
                && final(self).peak_of(phase) == old(self).peak_of(phase),
            final(self).events().len() > old(self).events().len() ==> final(self).usage_of(phase) == Some(((final(self).events().len() - old(self).events().len()) * (every * size)) as usize),
            final(self).events().len() > old(self).events().len() ==> final(self).peak_of(phase) == (if (final(self).events().len() - old(self).events().len()) * (every * size) > opt_value(old(self).peak_of(phase)) {
                Some(((final(self).events().len() - old(self).events().len()) * (every * size)) as usize)
            } else {
                old(self).peak_of(phase)
            }),
            forall|ph: CompilationPhase|
                ph != phase ==> final(self).usage_of(ph) == old(self).usage_of(ph)
                    && final(self).peak_of(ph) == old(self).peak_of(ph),
            r is Ok ==> final(self).events().len() == old(self).events().len() + count / every
                && (count / every > 0 ==> old(self).total_with(phase, ((count / every) * (every * size)) as nat) <= old(self).limit()),
            r is Err ==> final(self).events().len() > old(self).events().len()
                && r == Err::<(), MemoryError>(MemoryError::LimitExceeded {
                    current: old(self).total_with(phase, ((final(self).events().len() - old(self).events().len()) * (every * size)) as nat) as usize,
                    limit: old(self).limit() as usize,
                    phase,
                })
                && old(self).total_with(phase, ((final(self).events().len() - old(self).events().len()) * (every * size)) as nat) > old(self).limit(),
    {
        let m = count / every;
        let ghost step: nat = (every * size) as nat;
        let ghost start = self.events().len();
        let mut k: usize = 0;
        proof {
            assert(m * every <= count) by (nonlinear_arith)
                requires
                    m == count / every,
                    every > 0,
            ;
        }
        while k < m
            invariant
                self.wf(),
                k <= m,
                m == count / every,
                m * every <= count,
                every > 0,
                step == every * size,
                count * size <= usize::MAX,
                old(self).total_usage() + count * size <= usize::MAX,
                old(self).allocations() + progress_sum(step, m as nat) <= usize::MAX,
                start == old(self).events().len(),
                self.limit() == old(self).limit(),
                self.events().len() == start + k,
                self.events().subrange(0, start as int) == old(self).events(),
                forall|j: int|
                    start <= j < self.events().len() ==> {
                        let done = j - start + 1;
                        &&& (#[trigger] self.events()[j]).phase == phase
                        &&& self.events()[j].memory_usage == done * step
                        &&& self.events()[j].description@ == progress_text(prefix@, (done * every) as nat, suffix@)
                    },
                forall|j: int| 1 <= j <= k ==> #[trigger] old(self).progress_total(phase, step, j) <= old(self).limit(),
                self.allocations() == old(self).allocations() + progress_sum(step, k as nat),
                k == 0 ==> self.usage_of(phase) == old(self).usage_of(phase) && self.peak_of(phase) == old(self).peak_of(phase)
                    && self.total_usage() == old(self).total_usage(),
                k > 0 ==> self.usage_of(phase) == Some((k * step) as usize) && self.total_usage() == old(self).total_with(phase, (k * step) as nat),
                k > 0 ==> self.peak_of(phase) == (if k * step > opt_value(old(self).peak_of(phase)) {
                    Some((k * step) as usize)
                } else {
                    old(self).peak_of(phase)
                }),
                forall|ph: CompilationPhase|
                    ph != phase ==> self.usage_of(ph) == old(self).usage_of(ph)
                        && self.peak_of(ph) == old(self).peak_of(ph),
            decreases m - k,
        {
            proof {
                assert((k + 1) * every <= m * every) by (nonlinear_arith)
                    requires
                        k + 1 <= m,
                        every > 0,
                ;
            }
            let counted = (k + 1) * every;
            proof {
                assert(counted * size <= count * size) by (nonlinear_arith)
                    requires
                        counted <= count,
                ;
                assert(counted * size == (k + 1) * step) by (nonlinear_arith)
                    requires
                        counted == (k + 1) * every,
                        step == every * size,
                ;
                assert((k + 1) * step == k * step + step) by (nonlinear_arith);
                lemma_progress_sum_grows(step, (k + 1) as nat, m as nat);
            }
            let usage = counted * size;
            let mut description = String::new();
            push_str(&mut description, prefix);
            push_decimal(&mut description, counted as u64);
            push_str(&mut description, suffix);
            let ghost before = *self;
            self.record_usage(phase, usage, description);
            proof {
                assert(self.events().subrange(0, start as int) =~= before.events().subrange(0, start as int));
                assert forall|j: int| start <= j < self.events().len() implies {
                    let done = j - start + 1;
                    &&& (#[trigger] self.events()[j]).phase == phase
                    &&& self.events()[j].memory_usage == done * step
                    &&& self.events()[j].description@ == progress_text(prefix@, (done * every) as nat, suffix@)
                } by {
                    if j < self.events().len() - 1 {
                        assert(self.events().drop_last()[j] == self.events()[j]);
                        assert(before.events()[j] == self.events()[j]);
                    } else {
                        assert(j == start + k);
                        assert(self.events()[j] == self.events().last());
                        assert(j - start + 1 == k + 1);
                        assert((j - start + 1) * step == (k + 1) * step);
                        assert((j - start + 1) * every == (k + 1) * every);
                    }
                }
                if k > 0 {
                    if k * step > opt_value(old(self).peak_of(phase)) {
                        assert(step > 0) by (nonlinear_arith)
                            requires
                                k * step > 0,
                        ;
                    }
                }
            }
            match self.check_memory_limit() {
                Ok(()) => {
                    proof {
                        assert(old(self).progress_total(phase, step, (k + 1) as int) <= old(self).limit());
                    }
                },
                Err(e) => {
                    return Err(e);
                },
            }
            k = k + 1;
        }
        proof {
            if m > 0 {
                assert(old(self).progress_total(phase, step, m as int) <= old(self).limit());
            }
        }
        Ok(())
    }
}

} // verus!
