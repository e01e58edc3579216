//! What the CPU loop keeps: the time spent, the reports that are due, and what
//! has been counted.

use vstd::prelude::*;

use crate::coverage::{Coverage, module_name, recorded, seen};
use crate::vmexit::{VmExitCounts, VmExitReason, count_of, counted};

verus! {

/// Steps to emulate after code has been seen for the first time.
pub const NEW_COVERAGE_STEPS: u64 = 100;

/// The steps to emulate once a run's coverage has been looked at.
pub open spec fn steps_after_coverage(new_coverage: bool, emulating: u64) -> u64 {
    if new_coverage {
        NEW_COVERAGE_STEPS
    } else {
        emulating
    }
}

/// What has to be done when the loop is entered, before its first turn. The
/// emulator can leave the loop at any time and enter it anew, so that it may
/// have been done before.
#[derive(Clone, Copy, PartialEq, Eq, Structural, Debug)]
pub struct EntryWork {
    /// Measure the rate of the time stamp counter
    pub measure_rate: bool,
    /// Create the hypervisor, map the guest's memory, and start the times and
    /// counts
    pub create_hypervisor: bool,
}

/// What has to be done on entry: what is missing.
pub open spec fn entry_work(has_rate: bool, has_hypervisor: bool) -> EntryWork {
    EntryWork { measure_rate: !has_rate, create_hypervisor: !has_hypervisor }
}

/// Decides what has to be done when the loop is entered.
pub fn enter(has_rate: bool, has_hypervisor: bool) -> (res: EntryWork)
    ensures
        res == entry_work(has_rate, has_hypervisor),
        res.measure_rate <==> !has_rate,
        res.create_hypervisor <==> !has_hypervisor,
{
    EntryWork { measure_rate: !has_rate, create_hypervisor: !has_hypervisor }
}

/// What is done on entry is done once: with what one entry has brought about, a
/// later one finds nothing to do.
pub proof fn law_entry_work_is_done_once(has_rate: bool, has_hypervisor: bool)
    ensures
        ({
            let first = entry_work(has_rate, has_hypervisor);
            let later = entry_work(
                has_rate || first.measure_rate,
                has_hypervisor || first.create_hypervisor,
            );
            !later.measure_rate && !later.create_hypervisor
        }),
{
}

/// What the loop keeps from one entry to the next. Times are values of the
/// processor's time stamp counter.
pub struct PersistState {
    /// Future time to print the status messages
    pub future_report: u64,
    /// Time when the hypervisor was first created. This is used to get uptime
    pub start: u64,
    /// Estimated number of cycles spent inside of the hypervisor executing
    pub vm_elapsed: u64,
    /// Last time when device state was synced with the wall clock
    pub last_sync_cycles: u64,
    /// VM exit reason frequencies
    pub vmexits: VmExitCounts,
    /// Code coverage information per module
    pub coverage: Coverage,
}

/// Cycles from `from` to `to`, 0 if the counter has gone back.
pub open spec fn elapsed_cycles(from: u64, to: u64) -> int {
    if from <= to {
        to - from
    } else {
        0
    }
}

/// Cycles spent in the guest by a run from `entered` to `left`, of which the
/// call itself takes `overhead`.
pub open spec fn run_cycles(entered: u64, left: u64, overhead: u64) -> int {
    if overhead <= left - entered {
        left - entered - overhead
    } else {
        0
    }
}

impl PersistState {
    /// The state when the hypervisor has just been created. `ticks` is the
    /// number of cycles in a second, after which the first report is due.
    pub fn started(report_base: u64, ticks: u64, start: u64, last_sync_cycles: u64) -> (res: Self)
        requires
            report_base + ticks <= u64::MAX,
        ensures
            res.future_report == report_base + ticks,
            res.start == start,
            res.vm_elapsed == 0,
            res.last_sync_cycles == last_sync_cycles,
            res.vmexits@ == Map::<VmExitReason, nat>::empty(),
            res.coverage@ == Map::<Seq<char>, Set<usize>>::empty(),
            res.coverage.wf(),
    {
        PersistState {
            future_report: report_base + ticks,
            start,
            vm_elapsed: 0,
            last_sync_cycles,
            vmexits: VmExitCounts::new(),
            coverage: Coverage::new(),
        }
    }

    /// The cycles that the devices have to be stepped for, to catch up with
    /// the wall clock at `now`.
    pub fn sync(&mut self, now: u64) -> (res: u64)
        ensures
            res == elapsed_cycles(old(self).last_sync_cycles, now),
            old(self).last_sync_cycles <= now ==> old(self).last_sync_cycles + res == now,
            now <= old(self).last_sync_cycles ==> res == 0,
            *final(self) == (PersistState { last_sync_cycles: now, ..*old(self) }),
    {
        // Saturating in case of a change to a core with a counter behind
        let elapsed: u64 = now.saturating_sub(self.last_sync_cycles);
        self.last_sync_cycles = now;
        elapsed
    }

    /// Whether it is time for the status messages.
    pub fn report_due(&self, now: u64) -> (res: bool)
        ensures
            res <==> self.future_report <= now,
    {
        now >= self.future_report
    }

    /// Cycles since the hypervisor was created.
    pub fn uptime(&self, now: u64) -> (res: u64)
        requires
            self.start <= now,
        ensures
            res == now - self.start,
    {
        now - self.start
    }

    /// Sets the time of the next status messages, `ticks` cycles from `now`.
    pub fn schedule_report(&mut self, now: u64, ticks: u64)
        requires
            now + ticks <= u64::MAX,
        ensures
            *final(self) == (PersistState { future_report: (now + ticks) as u64, ..*old(self) }),
    {
        self.future_report = now + ticks;
    }

    /// Adds a run of the guest to the time spent in it.
    pub fn record_run(&mut self, entered: u64, left: u64, overhead: u64)
        requires
            entered <= left,
            old(self).vm_elapsed + run_cycles(entered, left, overhead) <= u64::MAX,
        ensures
            *final(self) == (PersistState {
                vm_elapsed: (old(self).vm_elapsed + run_cycles(entered, left, overhead)) as u64,
                ..*old(self)
            }),
            entered + overhead <= left ==> final(self).vm_elapsed + entered + overhead == old(
                self,
            ).vm_elapsed + left,
            left <= entered + overhead ==> final(self).vm_elapsed == old(self).vm_elapsed,
    {
        let elapsed: u64 = left - entered;
        // Saturating to handle some noise
        let vm_run_time: u64 = elapsed.saturating_sub(overhead);
        self.vm_elapsed = self.vm_elapsed + vm_run_time;
    }

    /// Records where the guest was stopped: at `offset` in a module, `None`
    /// standing for an unknown one. Returns whether it was never stopped there
    /// before, and has some steps emulated in that case.
    pub fn record_coverage(&mut self, module: Option<&str>, offset: usize, emulating: &mut u64)
        -> (res: bool)
        requires
            old(self).coverage.wf(),
        ensures
            final(self).coverage.wf(),
            res == !seen(old(self).coverage@, module_name(module)).contains(offset),
            final(self).coverage@ == recorded(old(self).coverage@, module_name(module), offset),
            *final(self) == (PersistState { coverage: final(self).coverage, ..*old(self) }),
            *final(emulating) == steps_after_coverage(res, *old(emulating)),
            *final(emulating) == if res {
                100u64
            } else {
                *old(emulating)
            },
    {
        let fresh: bool = self.coverage.record(module, offset);
        if fresh {
            *emulating = NEW_COVERAGE_STEPS;
        }
        fresh
    }

    /// Records the reason of an exit.
    pub fn record_exit(&mut self, reason: VmExitReason)
        requires
            count_of(old(self).vmexits@, reason) < u64::MAX,
        ensures
            final(self).vmexits@ == counted(old(self).vmexits@, reason),
            *final(self) == (PersistState { vmexits: final(self).vmexits, ..*old(self) }),
    {
        self.vmexits.record(reason);
    }
}

/// Syncing loses no time: two syncs, the counter not having gone back, step the
/// devices for what one sync at the later time would have.
pub proof fn law_syncs_add_up(last: u64, first: u64, second: u64)
    requires
        last <= first <= second,
    ensures
        elapsed_cycles(last, first) + elapsed_cycles(first, second) == elapsed_cycles(last, second),
{
}

/// A run of the guest: the times when it was entered and left, and the
/// overhead of the call.
pub struct Run {
    pub entered: u64,
    pub left: u64,
    pub overhead: u64,
}

/// The cycles that a series of runs spent in the guest.
pub open spec fn total_run_cycles(runs: Seq<Run>) -> int
    decreases runs.len(),
{
    if runs.len() == 0 {
        0
    } else {
        total_run_cycles(runs.drop_last()) + run_cycles(
            runs.last().entered,
            runs.last().left,
            runs.last().overhead,
        )
    }
}

/// Whether a series of runs, one after the other, took place from `start` to
/// `now`.
pub open spec fn took_place(runs: Seq<Run>, start: int, now: int) -> bool
    decreases runs.len(),
{
    if runs.len() == 0 {
        start <= now
    } else {
        &&& runs.last().entered <= runs.last().left <= now
        &&& took_place(runs.drop_last(), start, runs.last().entered as int)
    }
}

/// The time spent in the guest is never more than the uptime, so that it can be
/// reported as a part of it, and recording it never overflows.
pub proof fn law_guest_time_is_part_of_uptime(runs: Seq<Run>, start: u64, now: u64)
    requires
        took_place(runs, start as int, now as int),
    ensures
        0 <= total_run_cycles(runs) <= now - start,
    decreases runs.len(),
{
    if runs.len() > 0 {
        law_guest_time_is_part_of_uptime(runs.drop_last(), start, runs.last().entered);
    }
}

/// The cycles that the devices are stepped for, over the whole range of the
/// counter: from the last sync they lead to the time of this one, or are none if
/// the counter has gone back.
pub proof fn law_cycles_lead_from_one_time_to_the_other(from: u64, to: u64)
    ensures
        from <= to ==> from + elapsed_cycles(from, to) == to,
        to <= from ==> elapsed_cycles(from, to) == 0,
{
}

/// The time of a run is what is left of it without the overhead: together with
/// the overhead it leads from the time of entry to that of exit. A run that was
/// shorter than the overhead counts for nothing.
pub proof fn law_run_and_overhead_make_up_the_call(entered: u64, left: u64, overhead: u64)
    requires
        entered <= left,
    ensures
        entered + overhead <= left ==> entered + overhead + run_cycles(entered, left, overhead)
            == left,
        left <= entered + overhead ==> run_cycles(entered, left, overhead) == 0,
{
}

/// On entry the rate is measured if and only if it is missing, and the hypervisor
/// created if and only if it is, each whether or not the other is there.
pub proof fn law_entry_does_what_is_missing(has_rate: bool, has_hypervisor: bool)
    ensures
        entry_work(has_rate, has_hypervisor).measure_rate <==> !has_rate,
        entry_work(has_rate, has_hypervisor).create_hypervisor <==> !has_hypervisor,
{
}

/// New coverage has a hundred steps emulated, and only new coverage does.
pub proof fn law_new_coverage_is_emulated(emulating: u64)
    ensures
        steps_after_coverage(true, emulating) == 100,
        steps_after_coverage(false, emulating) == emulating,
{
}

} // verus!
