//! Performance metrics collection for DSP benchmarking.
use std::time::{Duration, Instant};
use vstd::prelude::*;

use crate::bits::{is_lt, lt, Bits};
use crate::clock::now;

verus! {

/// The bit pattern of `50.0`: from here on the load is high.
pub const HIGH_LOAD: u32 = 0x4248_0000;

/// The bit pattern of `80.0`: from here on the load is critical.
pub const CRITICAL_LOAD: u32 = 0x42a0_0000;

/// Performance metrics, written by the audio thread and read by the GUI thread.
#[derive(Debug)]
pub struct BenchmarkMetrics {
    /// Last process duration in nanoseconds.
    pub last_process_ns: u64,
    /// Maximum process duration in nanoseconds.
    pub max_process_ns: u64,
    /// Sum of process times for averaging; it wraps around.
    pub process_sum_ns: u64,
    /// Count of process calls; it wraps around.
    pub process_count: u64,
    /// Current buffer size.
    pub buffer_size: u32,
    /// Current sample rate.
    pub sample_rate: u32,
    /// Number of potential buffer underruns detected; it wraps around.
    pub xrun_count: u32,
}

impl Default for BenchmarkMetrics {
    fn default() -> (r: Self)
        ensures
            r == (BenchmarkMetrics {
                last_process_ns: 0,
                max_process_ns: 0,
                process_sum_ns: 0,
                process_count: 0,
                buffer_size: 512,
                sample_rate: 44100,
                xrun_count: 0,
            }),
    {
        BenchmarkMetrics::new()
    }
}

/// The metrics after a process call of `duration_ns` nanoseconds.
pub open spec fn timed(m: BenchmarkMetrics, duration_ns: u64) -> BenchmarkMetrics {
    BenchmarkMetrics {
        last_process_ns: duration_ns,
        max_process_ns: if duration_ns > m.max_process_ns {
            duration_ns
        } else {
            m.max_process_ns
        },
        process_sum_ns: m.process_sum_ns.wrapping_add(duration_ns),
        process_count: m.process_count.wrapping_add(1),
        ..m
    }
}

/// The metrics after process calls of the given durations.
pub open spec fn all_timed(m: BenchmarkMetrics, durations: Seq<u64>) -> BenchmarkMetrics
    decreases durations.len(),
{
    if durations.len() == 0 {
        m
    } else {
        timed(all_timed(m, durations.drop_last()), durations.last())
    }
}

impl BenchmarkMetrics {
    /// Metrics before anything was measured.
    pub fn new() -> (r: Self)
        ensures
            r == (BenchmarkMetrics {
                last_process_ns: 0,
                max_process_ns: 0,
                process_sum_ns: 0,
                process_count: 0,
                buffer_size: 512,
                sample_rate: 44100,
                xrun_count: 0,
            }),
    {
        BenchmarkMetrics {
            last_process_ns: 0,
            max_process_ns: 0,
            process_sum_ns: 0,
            process_count: 0,
            buffer_size: 512,
            sample_rate: 44100,
            xrun_count: 0,
        }
    }

    /// Records a process duration (called from the audio thread).
    pub fn record_process_time(&mut self, duration_ns: u64)
        ensures
            *final(self) == timed(*old(self), duration_ns),
    {
        self.last_process_ns = duration_ns;
        if duration_ns > self.max_process_ns {
            self.max_process_ns = duration_ns;
        }
        self.process_sum_ns = self.process_sum_ns.wrapping_add(duration_ns);
        self.process_count = self.process_count.wrapping_add(1);
    }

    /// Average process time in nanoseconds, rounded down; 0 before the first call.
    pub fn average_process_ns(&self) -> (r: u64)
        ensures
            r == (if self.process_count > 0 {
                self.process_sum_ns / self.process_count
            } else {
                0
            }),
    {
        if self.process_count > 0 {
            self.process_sum_ns / self.process_count
        } else {
            0
        }
    }

    /// Whether a load can be computed: the buffer size and the sample rate are known.
    pub fn has_load(&self) -> (r: bool)
        ensures
            r == (self.sample_rate > 0 && self.buffer_size > 0),
    {
        self.sample_rate > 0 && self.buffer_size > 0
    }

    /// Resets what was measured; the buffer size and the sample rate stay.
    pub fn reset(&mut self)
        ensures
            *final(self) == (BenchmarkMetrics {
                last_process_ns: 0,
                max_process_ns: 0,
                process_sum_ns: 0,
                process_count: 0,
                xrun_count: 0,
                ..*old(self)
            }),
    {
        self.last_process_ns = 0;
        self.max_process_ns = 0;
        self.process_sum_ns = 0;
        self.process_count = 0;
        self.xrun_count = 0;
    }

    /// Increments the xrun counter.
    pub fn record_xrun(&mut self)
        ensures
            *final(self) == (BenchmarkMetrics {
                xrun_count: old(self).xrun_count.wrapping_add(1),
                ..*old(self)
            }),
    {
        self.xrun_count = self.xrun_count.wrapping_add(1);
    }
}

/// How busy the processor is.
#[derive(Clone, Copy, Debug, PartialEq, Eq, Structural)]
pub enum Load {
    Fine,
    High,
    Critical,
}

/// How busy the processor is at a usage in percent.
pub open spec fn load_at(percent: Bits) -> Load {
    if lt(percent, HIGH_LOAD) {
        Load::Fine
    } else if lt(percent, CRITICAL_LOAD) {
        Load::High
    } else {
        Load::Critical
    }
}

/// How busy the processor is at a usage in percent.
pub fn load(percent: Bits) -> (r: Load)
    ensures
        r == load_at(percent),
{
    if is_lt(percent, HIGH_LOAD) {
        Load::Fine
    } else if is_lt(percent, CRITICAL_LOAD) {
        Load::High
    } else {
        Load::Critical
    }
}

/// Timer that records the duration of a process call when it is finished.
pub struct ProcessTimer<'a> {
    pub metrics: &'a mut BenchmarkMetrics,
    pub start: Instant,
}

/// `Instant::elapsed` of the standard library: the time since then. Nothing is
/// promised of it.
#[verifier::external_body]
fn elapsed(start: &Instant) -> Duration {
    start.elapsed()
}

/// `Duration::as_nanos` of the standard library: the whole nanoseconds of a
/// duration. A duration has no contents here that the number could be stated over.
#[verifier::external_body]
fn as_nanos(duration: &Duration) -> u128 {
    duration.as_nanos()
}

impl<'a> ProcessTimer<'a> {
    /// Starts a timer.
    pub fn new(metrics: &'a mut BenchmarkMetrics) -> (r: Self)
        ensures
            *r.metrics == *old(metrics),
            *final(r.metrics) == *final(metrics),
    {
        ProcessTimer { metrics, start: now() }
    }

    /// Records the time since the start.
    pub fn finish(self)
        ensures
            exists|duration_ns: u64| #[trigger]
                timed(*old(self.metrics), duration_ns) == *final(self.metrics),
    {
        let duration = elapsed(&self.start);
        let duration_ns: u64 = truncated(as_nanos(&duration));
        self.metrics.record_process_time(duration_ns);
    }
}

/// The lower half of a number of nanoseconds.
pub fn truncated(nanos: u128) -> (r: u64)
    ensures
        r == nanos % 0x1_0000_0000_0000_0000,
{
    let rest: u128 = nanos % 0x1_0000_0000_0000_0000;
    rest as u64
}

/// The maximum is the longest of all recorded durations, and at least as long as
/// the maximum before.
pub proof fn law_maximum_is_the_longest(m: BenchmarkMetrics, durations: Seq<u64>)
    ensures
        all_timed(m, durations).max_process_ns >= m.max_process_ns,
        forall|i: int|
            0 <= i < durations.len() ==> all_timed(m, durations).max_process_ns
                >= #[trigger] durations[i],
        all_timed(m, durations).max_process_ns == m.max_process_ns || durations.contains(
            all_timed(m, durations).max_process_ns,
        ),
    decreases durations.len(),
{
    if durations.len() > 0 {
        let before = durations.drop_last();
        law_maximum_is_the_longest(m, before);
        assert forall|i: int| 0 <= i < durations.len() implies all_timed(m, durations).max_process_ns
            >= #[trigger] durations[i] by {
            if i < before.len() {
                assert(durations[i] == before[i]);
            }
        }
        let max = all_timed(m, before).max_process_ns;
        if before.contains(max) {
            let i = choose|i: int| 0 <= i < before.len() && before[i] == max;
            assert(durations[i] == max);
        }
        assert(durations[durations.len() - 1] == durations.last());
    }
}

/// The sum of durations.
pub open spec fn total(durations: Seq<u64>) -> nat
    decreases durations.len(),
{
    if durations.len() == 0 {
        0
    } else {
        total(durations.drop_last()) + durations.last() as nat
    }
}

/// As long as their sum fits, sum and count are those of all durations since the
/// reset, so that the average is theirs.
pub proof fn law_average_is_of_all_durations(m: BenchmarkMetrics, durations: Seq<u64>)
    requires
        m.process_sum_ns == 0,
        m.process_count == 0,
        total(durations) <= u64::MAX,
        durations.len() <= u64::MAX,
    ensures
        all_timed(m, durations).process_sum_ns == total(durations),
        all_timed(m, durations).process_count == durations.len(),
    decreases durations.len(),
{
    if durations.len() > 0 {
        law_average_is_of_all_durations(m, durations.drop_last());
    }
}

/// What one duration does to the metrics: it is the last, counted and added up, and the
/// maximum where it is longer; nothing else changes. After several durations the last one
/// is the last.
pub proof fn law_durations_are_recorded(m: BenchmarkMetrics, duration_ns: u64, more: Seq<u64>)
    ensures
        ({
            let after = timed(m, duration_ns);
            &&& after.last_process_ns == duration_ns
            &&& after.max_process_ns >= duration_ns && after.max_process_ns >= m.max_process_ns
            &&& after.max_process_ns == duration_ns || after.max_process_ns == m.max_process_ns
            &&& m.process_sum_ns + duration_ns <= u64::MAX ==> after.process_sum_ns
                == m.process_sum_ns + duration_ns
            &&& m.process_count < u64::MAX ==> after.process_count == m.process_count + 1
            &&& after.buffer_size == m.buffer_size
            &&& after.sample_rate == m.sample_rate
            &&& after.xrun_count == m.xrun_count
        }),
        more.len() > 0 ==> all_timed(m, more).last_process_ns == more.last(),
        all_timed(m, Seq::empty()) == m,
        all_timed(m, more.push(duration_ns)) == timed(all_timed(m, more), duration_ns),
{
    assert(more.push(duration_ns).drop_last() =~= more);
}

/// The load is fine below 50 percent, critical from 80 percent on, and high in between.
pub proof fn law_load_by_percent(percent: Bits)
    ensures
        load_at(percent) == Load::Fine <==> lt(percent, 0x4248_0000),
        load_at(percent) == Load::High <==> !lt(percent, 0x4248_0000) && lt(percent, 0x42a0_0000),
        load_at(percent) == Load::Critical <==> !lt(percent, 0x4248_0000) && !lt(
            percent,
            0x42a0_0000,
        ),
{
}

} // verus!
