//! Bounding how many assemblies run at once and for how long.

use crate::context::assembler::AssembleReport;
use crate::context::error::AssembleError;
use vstd::prelude::*;

verus! {

/// A length of time.
#[derive(Debug, Clone, Copy, PartialEq, Eq, Structural)]
pub struct TimeLimit {
    pub secs: u64,
    /// The rest, in billionths of a second.
    pub nanos: u32,
}

/// A length of time in whole milliseconds, up to the largest `u64`.
pub open spec fn whole_millis(t: TimeLimit) -> u64 {
    let ms = t.secs * 1_000 + t.nanos / 1_000_000;
    if ms > u64::MAX {
        u64::MAX
    } else {
        ms as u64
    }
}

impl TimeLimit {
    /// The length of time in whole milliseconds.
    pub fn as_millis(self) -> (r: u64)
        ensures
            r == whole_millis(self),
    {
        let ms: u128 = self.secs as u128 * 1_000 + (self.nanos / 1_000_000) as u128;
        if ms > u64::MAX as u128 {
            u64::MAX
        } else {
            ms as u64
        }
    }
}

/// Limits of a pool.
#[derive(Debug, Clone)]
pub struct AssemblePoolConfig {
    /// Assemblies that may run at once.
    pub max_in_flight: usize,
    /// How long one assembly may take.
    pub timeout: TimeLimit,
}

impl Default for AssemblePoolConfig {
    fn default() -> (r: Self)
        ensures
            r.max_in_flight == 8,
            r.timeout == (TimeLimit { secs: 5, nanos: 0 }),
    {
        AssemblePoolConfig { max_in_flight: 8, timeout: TimeLimit { secs: 5, nanos: 0 } }
    }
}

/// How a job that was let in ended.
#[derive(Debug)]
pub enum JobOutcome {
    /// Within the time limit, with a result.
    Finished(Result<AssembleReport, AssembleError>),
    /// Within the time limit, without a result.
    Failed,
    /// Not within the time limit.
    TimedOut,
}

/// A pool with at least one place. A job gets in only where a place is free.
#[derive(Debug)]
pub struct AssemblePool {
    max_in_flight: usize,
    in_flight: usize,
    timeout: TimeLimit,
}

impl AssemblePool {
    /// Jobs that may run at once.
    pub closed spec fn limit(self) -> usize {
        self.max_in_flight
    }

    /// Jobs that run.
    pub closed spec fn running(self) -> usize {
        self.in_flight
    }

    /// How long a job may take.
    pub closed spec fn time_limit(self) -> TimeLimit {
        self.timeout
    }

    /// The pool has a place, and no more jobs run than it has places.
    pub open spec fn well_formed(self) -> bool {
        1 <= self.limit() && self.running() <= self.limit()
    }

    /// A pool with the given limits, at least one place, and no job.
    pub fn new(config: AssemblePoolConfig) -> (r: Self)
        ensures
            r.well_formed(),
            r.limit() == (if config.max_in_flight == 0 {
                1
            } else {
                config.max_in_flight
            }),
            r.running() == 0,
            r.time_limit() == config.timeout,
    {
        let max_in_flight: usize = if config.max_in_flight == 0 {
            1
        } else {
            config.max_in_flight
        };
        AssemblePool { max_in_flight, in_flight: 0, timeout: config.timeout }
    }

    /// Jobs that may run at once.
    pub fn max_in_flight(&self) -> (r: usize)
        ensures
            r == self.limit(),
    {
        self.max_in_flight
    }

    /// How long a job may take.
    pub fn timeout(&self) -> (r: TimeLimit)
        ensures
            r == self.time_limit(),
    {
        self.timeout
    }

    /// Lets a job in where a place is free; jobs never wait for one.
    pub fn try_acquire(&mut self) -> (r: Result<(), AssembleError>)
        requires
            old(self).well_formed(),
        ensures
            final(self).well_formed(),
            final(self).limit() == old(self).limit(),
            final(self).time_limit() == old(self).time_limit(),
            match r {
                Ok(_) => old(self).running() < old(self).limit() && final(self).running()
                    == old(self).running() + 1,
                Err(e) => old(self).running() == old(self).limit() && final(self).running()
                    == old(self).running() && e == (AssembleError::QueueFull {
                    max_in_flight: old(self).limit(),
                }),
            },
    {
        if self.in_flight < self.max_in_flight {
            self.in_flight = self.in_flight + 1;
            Ok(())
        } else {
            Err(AssembleError::QueueFull { max_in_flight: self.max_in_flight })
        }
    }

    /// Gives a job's place back.
    pub fn release(&mut self)
        requires
            old(self).well_formed(),
            old(self).running() > 0,
        ensures
            final(self).well_formed(),
            final(self).limit() == old(self).limit(),
            final(self).time_limit() == old(self).time_limit(),
            final(self).running() == old(self).running() - 1,
    {
        self.in_flight = self.in_flight - 1;
    }

    /// What the caller of a job gets: the result unchanged where there is one,
    /// else an error.
    pub fn settle(&self, outcome: JobOutcome) -> (r: Result<AssembleReport, AssembleError>)
        ensures
            match outcome {
                JobOutcome::Finished(result) => r == result,
                JobOutcome::Failed => r == Err::<AssembleReport, AssembleError>(
                    AssembleError::WorkerFailed,
                ),
                JobOutcome::TimedOut => r == Err::<AssembleReport, AssembleError>(
                    AssembleError::Timeout { timeout_ms: whole_millis(self.time_limit()) },
                ),
            },
    {
        match outcome {
            JobOutcome::Finished(result) => result,
            JobOutcome::Failed => Err(AssembleError::WorkerFailed),
            JobOutcome::TimedOut => Err(AssembleError::Timeout {
                timeout_ms: self.timeout.as_millis(),
            }),
        }
    }
}

/// A pool that was made has at least one place, no job and the given time limit.
pub proof fn new_pool_has_a_place(config: AssemblePoolConfig, r: AssemblePool)
    requires
        call_ensures(AssemblePool::new, (config,), r),
    ensures
        r.limit() >= 1,
        config.max_in_flight > 0 ==> r.limit() == config.max_in_flight,
        r.running() == 0,
        r.time_limit() == config.timeout,
{
}

/// A finished job's result is handed on; a job that failed or took too long is
/// an error that tells which.
pub proof fn finished_results_are_handed_on(
    pool: &AssemblePool,
    outcome: JobOutcome,
    r: Result<AssembleReport, AssembleError>,
)
    requires
        call_ensures(AssemblePool::settle, (pool, outcome), r),
    ensures
        outcome matches JobOutcome::Finished(x) ==> r == x,
        outcome is Failed ==> (r matches Err(AssembleError::WorkerFailed)),
        outcome is TimedOut ==> (r matches Err(AssembleError::Timeout { timeout_ms })
            && timeout_ms == whole_millis(pool.time_limit())),
{
}

/// A length of time in milliseconds is cut off at whole ones, and stops at the
/// largest number.
pub proof fn milliseconds_are_cut_off(t: TimeLimit)
    ensures
        t.nanos < 1_000_000_000 && t.secs < 1_000_000_000 ==> {
            &&& whole_millis(t) * 1_000_000 <= t.secs * 1_000_000_000 + t.nanos
            &&& t.secs * 1_000_000_000 + t.nanos < (whole_millis(t) + 1) * 1_000_000
        },
        t.secs == u64::MAX ==> whole_millis(t) == u64::MAX,
{
}

} // verus!
