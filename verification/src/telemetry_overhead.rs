//! The monitor's own resource use while it samples telemetry: the integer
//! bookkeeping of a measurement window (counter progression, peaks, elapsed
//! time and CPU time).
use vstd::prelude::*;

verus! {

/// Largest private-memory growth allowed by default.
pub const DEFAULT_PRIVATE_MEMORY_GROWTH_BUDGET_BYTES: u64 = 67108864;

#[derive(Debug, Clone, Copy, PartialEq, Eq, Structural)]
pub enum OverheadPhase {
    Idle,
    ActiveInference,
}

/// The current process's counters at one moment.
#[derive(Debug, Clone, Copy, PartialEq, Eq, Structural)]
pub struct ProcessResourceSample {
    pub captured_at_unix_ms: u64,
    pub process_cpu_time_100ns: u64,
    pub private_bytes: u64,
    pub working_set_bytes: u64,
    pub logical_processor_count: u32,
}

#[derive(Debug, Clone, Copy, PartialEq, Eq, Structural)]
pub enum BudgetMetric {
    CpuPercentTotalCapacity,
    PeakPrivateGrowthBytes,
    P95PollFractionOfCadence,
}

#[derive(Debug, Clone, PartialEq, Eq)]
pub enum OverheadError {
    InvalidBudget(String),
    InvalidCadence,
    NoPollSamples,
    InvalidLogicalProcessorCount,
    LogicalProcessorCountChanged { start: u32, end: u32 },
    CpuCounterMovedBackwards { start: u64, end: u64 },
    ClockMovedBackwards { start: u64, end: u64 },
    ZeroDuration,
    Platform(String),
    UnsupportedPlatform,
}

/// Why a later sample cannot follow an earlier one, in the order checked:
/// no processors, a changed processor count, the clock going back, the CPU
/// counter going back.
pub open spec fn progression_error(start: ProcessResourceSample, current: ProcessResourceSample) -> Option<OverheadError> {
    if current.logical_processor_count == 0 {
        Some(OverheadError::InvalidLogicalProcessorCount)
    } else if current.logical_processor_count != start.logical_processor_count {
        Some(OverheadError::LogicalProcessorCountChanged {
            start: start.logical_processor_count,
            end: current.logical_processor_count,
        })
    } else if current.captured_at_unix_ms < start.captured_at_unix_ms {
        Some(OverheadError::ClockMovedBackwards { start: start.captured_at_unix_ms, end: current.captured_at_unix_ms })
    } else if current.process_cpu_time_100ns < start.process_cpu_time_100ns {
        Some(OverheadError::CpuCounterMovedBackwards {
            start: start.process_cpu_time_100ns,
            end: current.process_cpu_time_100ns,
        })
    } else {
        None
    }
}

/// Checks that `current` can follow `start`.
pub fn validate_resource_progression(start: ProcessResourceSample, current: ProcessResourceSample) -> (r: Result<(), OverheadError>)
    ensures
        match progression_error(start, current) {
            Some(e) => r == Err::<(), OverheadError>(e),
            None => r is Ok,
        },
{
    if current.logical_processor_count == 0 {
        return Err(OverheadError::InvalidLogicalProcessorCount);
    }
    if current.logical_processor_count != start.logical_processor_count {
        return Err(OverheadError::LogicalProcessorCountChanged {
            start: start.logical_processor_count,
            end: current.logical_processor_count,
        });
    }
    if current.captured_at_unix_ms < start.captured_at_unix_ms {
        return Err(OverheadError::ClockMovedBackwards {
            start: start.captured_at_unix_ms,
            end: current.captured_at_unix_ms,
        });
    }
    if current.process_cpu_time_100ns < start.process_cpu_time_100ns {
        return Err(OverheadError::CpuCounterMovedBackwards {
            start: start.process_cpu_time_100ns,
            end: current.process_cpu_time_100ns,
        });
    }
    Ok(())
}

/// The resource side of an overhead measurement: where it started, the
/// last accepted sample, and the peaks seen. Invariant: every accepted
/// sample follows the one before it, and the peaks are the largest values
/// accepted so far.
#[derive(Debug, Clone, PartialEq, Eq)]
pub struct ResourceWindow {
    pub start: ProcessResourceSample,
    pub last: ProcessResourceSample,
    pub peak_private_bytes: u64,
    pub peak_working_set_bytes: u64,
    pub samples: u64,
}

/// The integer results of a finished window.
#[derive(Debug, Clone, Copy, PartialEq, Eq, Structural)]
pub struct ResourceTotals {
    pub elapsed_ms: u64,
    pub cpu_delta_100ns: u64,
    pub start_private_bytes: u64,
    pub end_private_bytes: u64,
    pub peak_private_bytes: u64,
    pub peak_private_growth_bytes: u64,
    pub start_working_set_bytes: u64,
    pub end_working_set_bytes: u64,
    pub peak_working_set_bytes: u64,
    pub logical_processor_count: u32,
}

impl ResourceWindow {
    pub open spec fn wf(&self) -> bool {
        &&& self.start.logical_processor_count > 0
        &&& self.last.logical_processor_count == self.start.logical_processor_count
        &&& self.start.captured_at_unix_ms <= self.last.captured_at_unix_ms
        &&& self.start.process_cpu_time_100ns <= self.last.process_cpu_time_100ns
        &&& self.start.private_bytes <= self.peak_private_bytes
        &&& self.last.private_bytes <= self.peak_private_bytes
        &&& self.start.working_set_bytes <= self.peak_working_set_bytes
        &&& self.last.working_set_bytes <= self.peak_working_set_bytes
    }

    /// Opens a window; the sampling cadence must be positive and the start
    /// sample must report processors.
    pub fn new(cadence_ms: u64, start: ProcessResourceSample) -> (r: Result<Self, OverheadError>)
        ensures
            cadence_ms == 0 ==> r == Err::<Self, OverheadError>(OverheadError::InvalidCadence),
            cadence_ms > 0 && start.logical_processor_count == 0 ==> r == Err::<Self, OverheadError>(OverheadError::InvalidLogicalProcessorCount),
            cadence_ms > 0 && start.logical_processor_count > 0 ==> (r matches Ok(w) && w.wf() && w.start == start && w.last == start
                && w.peak_private_bytes == start.private_bytes && w.peak_working_set_bytes == start.working_set_bytes && w.samples == 0),
    {
        if cadence_ms == 0 {
            return Err(OverheadError::InvalidCadence);
        }
        if start.logical_processor_count == 0 {
            return Err(OverheadError::InvalidLogicalProcessorCount);
        }
        Ok(ResourceWindow {
            start,
            last: start,
            peak_private_bytes: start.private_bytes,
            peak_working_set_bytes: start.working_set_bytes,
            samples: 0,
        })
    }

    /// Accepts a poll's sample if it follows the last one; a refused sample
    /// changes nothing.
    pub fn record(&mut self, resources: ProcessResourceSample) -> (r: Result<(), OverheadError>)
        requires
            old(self).wf(),
        ensures
            final(self).wf(),
            match progression_error(old(self).last, resources) {
                Some(e) => r == Err::<(), OverheadError>(e) && *final(self) == *old(self),
                None => {
                    &&& r is Ok
                    &&& final(self).start == old(self).start
                    &&& final(self).last == resources
                    &&& final(self).peak_private_bytes == if resources.private_bytes > old(self).peak_private_bytes {
                        resources.private_bytes
                    } else {
                        old(self).peak_private_bytes
                    }
                    &&& final(self).peak_working_set_bytes == if resources.working_set_bytes > old(self).peak_working_set_bytes {
                        resources.working_set_bytes
                    } else {
                        old(self).peak_working_set_bytes
                    }
                    &&& final(self).samples == if old(self).samples == u64::MAX { u64::MAX as int } else { old(self).samples + 1 }
                },
            },
    {
        match validate_resource_progression(self.last, resources) {
            Err(e) => {
                return Err(e);
            },
            Ok(()) => {},
        }
        if resources.private_bytes > self.peak_private_bytes {
            self.peak_private_bytes = resources.private_bytes;
        }
        if resources.working_set_bytes > self.peak_working_set_bytes {
            self.peak_working_set_bytes = resources.working_set_bytes;
        }
        self.last = resources;
        if self.samples < u64::MAX {
            self.samples = self.samples + 1;
        }
        Ok(())
    }

    /// Closes the window with its end sample. The end must follow the last
    /// sample, at least one poll must have been recorded, and time must have
    /// passed since the start.
    pub fn finish(&self, end: ProcessResourceSample) -> (r: Result<ResourceTotals, OverheadError>)
        requires
            self.wf(),
        ensures
            match progression_error(self.last, end) {
                Some(e) => r == Err::<ResourceTotals, OverheadError>(e),
                None => if self.samples == 0 {
                    r == Err::<ResourceTotals, OverheadError>(OverheadError::NoPollSamples)
                } else if end.captured_at_unix_ms == self.start.captured_at_unix_ms {
                    r == Err::<ResourceTotals, OverheadError>(OverheadError::ZeroDuration)
                } else {
                    r matches Ok(t) && {
                        let peak_private = if end.private_bytes > self.peak_private_bytes { end.private_bytes } else { self.peak_private_bytes };
                        let peak_ws = if end.working_set_bytes > self.peak_working_set_bytes { end.working_set_bytes } else { self.peak_working_set_bytes };
                        &&& t.elapsed_ms == end.captured_at_unix_ms - self.start.captured_at_unix_ms
                        &&& t.elapsed_ms > 0
                        &&& t.cpu_delta_100ns == end.process_cpu_time_100ns - self.start.process_cpu_time_100ns
                        &&& t.start_private_bytes == self.start.private_bytes
                        &&& t.end_private_bytes == end.private_bytes
                        &&& t.peak_private_bytes == peak_private
                        &&& t.peak_private_growth_bytes == peak_private - self.start.private_bytes
                        &&& t.start_working_set_bytes == self.start.working_set_bytes
                        &&& t.end_working_set_bytes == end.working_set_bytes
                        &&& t.peak_working_set_bytes == peak_ws
                        &&& t.logical_processor_count == self.start.logical_processor_count
                    }
                },
            },
    {
        match validate_resource_progression(self.last, end) {
            Err(e) => {
                return Err(e);
            },
            Ok(()) => {},
        }
        if self.samples == 0 {
            return Err(OverheadError::NoPollSamples);
        }
        let elapsed_ms = end.captured_at_unix_ms - self.start.captured_at_unix_ms;
        if elapsed_ms == 0 {
            return Err(OverheadError::ZeroDuration);
        }
        let cpu_delta_100ns = end.process_cpu_time_100ns - self.start.process_cpu_time_100ns;
        let peak_private = if end.private_bytes > self.peak_private_bytes {
            end.private_bytes
        } else {
            self.peak_private_bytes
        };
        let peak_ws = if end.working_set_bytes > self.peak_working_set_bytes {
            end.working_set_bytes
        } else {
            self.peak_working_set_bytes
        };
        Ok(ResourceTotals {
            elapsed_ms,
            cpu_delta_100ns,
            start_private_bytes: self.start.private_bytes,
            end_private_bytes: end.private_bytes,
            peak_private_bytes: peak_private,
            peak_private_growth_bytes: peak_private - self.start.private_bytes,
            start_working_set_bytes: self.start.working_set_bytes,
            end_working_set_bytes: end.working_set_bytes,
            peak_working_set_bytes: peak_ws,
            logical_processor_count: self.start.logical_processor_count,
        })
    }
}

/// Accepted samples only move forward: after any accepted sample the
/// window's clock and CPU counter are no earlier than at its start, its
/// processor count is unchanged, and its peaks bound every accepted value.
pub proof fn law_window_only_moves_forward(before: ResourceWindow, after: ResourceWindow, sample: ProcessResourceSample)
    requires
        before.wf(),
        progression_error(before.last, sample) is None,
        after.start == before.start,
        after.last == sample,
        after.peak_private_bytes == if sample.private_bytes > before.peak_private_bytes { sample.private_bytes } else { before.peak_private_bytes },
        after.peak_working_set_bytes == if sample.working_set_bytes > before.peak_working_set_bytes { sample.working_set_bytes } else { before.peak_working_set_bytes },
    ensures
        after.wf(),
        after.start.captured_at_unix_ms <= sample.captured_at_unix_ms,
        after.start.process_cpu_time_100ns <= sample.process_cpu_time_100ns,
        sample.logical_processor_count == before.start.logical_processor_count,
        before.peak_private_bytes <= after.peak_private_bytes,
        before.peak_working_set_bytes <= after.peak_working_set_bytes,
{
}

/// The nearest rank of the `percent`-th percentile among `n` sorted values:
/// the smallest rank whose share of the values reaches `percent`.
pub open spec fn nearest_rank(n: int, percent: int) -> int {
    (percent * n + 99) / 100
}

/// The position, among `n > 0` sorted values, of the nearest-rank
/// `percent`-th percentile: its rank less one, kept within the values.
pub open spec fn nearest_rank_position(n: int, percent: int) -> int {
    let rank = nearest_rank(n, percent);
    let below = if rank >= 1 { rank - 1 } else { 0 };
    if below < n - 1 { below } else { n - 1 }
}

/// Where the nearest-rank `percent`-th percentile stands among `n` sorted
/// values.
pub fn nearest_rank_index(n: usize, percent: u64) -> (r: usize)
    requires
        n > 0,
    ensures
        r == nearest_rank_position(n as int, percent as int),
        r < n,
{
    let pw = percent as u128;
    let nw = n as u128;
    assert(pw * nw <= 0xffff_ffff_ffff_ffff * 0xffff_ffff_ffff_ffff) by (nonlinear_arith)
        requires
            pw <= 0xffff_ffff_ffff_ffff,
            nw <= 0xffff_ffff_ffff_ffff,
    ;
    let rank: u128 = (pw * nw + 99) / 100;
    let below: u128 = if rank >= 1 { rank - 1 } else { 0 };
    if below < (n as u128) - 1 {
        below as usize
    } else {
        n - 1
    }
}

} // verus!
