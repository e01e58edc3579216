//! The CPU loop: which work the emulator, the hypervisor and the devices are
//! given, and in which order.

use vstd::prelude::*;

use crate::exits::{
    ExitAction, ExitContext, action_for, handle_exit, is_device_exit, law_exits_are_answered,
    law_halves_of_an_msr_value, steps_after,
};
use crate::persist::{
    PersistState, elapsed_cycles, law_run_and_overhead_make_up_the_call, run_cycles,
};
use crate::vmexit::{VmExitReason, count_of, counted, law_one_exit_adds_one};

verus! {

/// How the guest's processor goes on.
#[derive(Clone, Copy, PartialEq, Eq, Structural, Debug)]
pub enum CpuStep {
    /// Step the emulator
    Emulate { steps: u64 },
    /// Run the hypervisor until it exits
    RunGuest,
}

/// How the processor goes on when `emulating` steps are to be emulated.
pub open spec fn step_for(emulating: u64) -> CpuStep {
    if emulating > 0 {
        CpuStep::Emulate { steps: emulating }
    } else {
        CpuStep::RunGuest
    }
}

/// Decides how the processor goes on. The steps that were asked for are used
/// up by that.
pub fn next_step(emulating: &mut u64) -> (res: CpuStep)
    ensures
        res == step_for(*old(emulating)),
        *old(emulating) > 0 ==> res == (CpuStep::Emulate { steps: *old(emulating) }),
        *old(emulating) == 0 ==> res == CpuStep::RunGuest,
        *final(emulating) == 0,
{
    if *emulating > 0 {
        let steps: u64 = *emulating;
        *emulating = 0;
        CpuStep::Emulate { steps }
    } else {
        CpuStep::RunGuest
    }
}

/// What the loop waits for.
#[derive(Clone, Copy, PartialEq, Eq, Structural, Debug)]
pub enum Phase {
    /// The time, at the start of a turn, to sync the devices with
    SyncClock,
    /// The devices, to be stepped
    DevicesStepping,
    /// The time, to see whether a report is due
    ReportClock,
    /// The time, to report the uptime
    UptimeClock,
    /// The report, to be printed
    Reporting,
    /// The time, to schedule the next report
    ScheduleClock,
    /// The hypervisor, to exit
    GuestRunning,
    /// The last work of a turn, to be done
    Finishing,
}

/// Work that the loop hands out. The answer to `ReadClock` is a `Clock` event,
/// that to `RunGuest` an `Exited` event, that to anything else `Done`.
#[derive(Clone, Copy, PartialEq, Eq, Structural, Debug)]
pub enum Work {
    /// Read the time stamp counter
    ReadClock,
    /// Step the devices for the time that `cycles` took
    StepDevices { cycles: u64 },
    /// Print the status messages: `vm_elapsed` of `total_cycles` were spent in
    /// the guest
    PrintReport { vm_elapsed: u64, total_cycles: u64 },
    /// Step the emulator
    StepCpu { steps: u64 },
    /// Run the hypervisor until it exits
    RunGuest,
    /// Do what an exit calls for
    Handle { action: ExitAction },
}

/// What comes back from the work.
#[derive(Clone, Copy, Debug)]
pub enum Event {
    /// The time stamp counter has been read
    Clock { now: u64 },
    /// The work is done
    Done,
    /// The hypervisor has exited. `entered` and `left` are the times before and
    /// after the call, `overhead` the cycles that the call itself takes
    Exited {
        entered: u64,
        left: u64,
        overhead: u64,
        reason: VmExitReason,
        context: ExitContext,
    },
}

/// The loop, between two pieces of work.
#[derive(Clone, Copy, PartialEq, Eq, Structural, Debug)]
pub struct CpuLoop {
    /// Steps to be emulated. When this is 0 the hypervisor is used
    pub emulating: u64,
    /// What the loop waits for
    pub phase: Phase,
}

/// The loop after the processor's part of a turn has been handed out, and that
/// part.
pub open spec fn hand_out_cpu_work(emulating: u64) -> (CpuLoop, Work) {
    match step_for(emulating) {
        CpuStep::Emulate { steps } => (
            CpuLoop { emulating: 0, phase: Phase::Finishing },
            Work::StepCpu { steps },
        ),
        CpuStep::RunGuest => (CpuLoop { emulating: 0, phase: Phase::GuestRunning }, Work::RunGuest),
    }
}

/// The loop after an event, and the work that it hands out next.
pub open spec fn turned(cpu: CpuLoop, persist: PersistState, event: Event) -> (CpuLoop, Work) {
    match (cpu.phase, event) {
        (Phase::SyncClock, Event::Clock { now }) => (
            CpuLoop { phase: Phase::DevicesStepping, ..cpu },
            Work::StepDevices { cycles: elapsed_cycles(persist.last_sync_cycles, now) as u64 },
        ),
        (Phase::ReportClock, Event::Clock { now }) => if persist.future_report <= now {
            (CpuLoop { phase: Phase::UptimeClock, ..cpu }, Work::ReadClock)
        } else {
            hand_out_cpu_work(cpu.emulating)
        },
        (Phase::UptimeClock, Event::Clock { now }) => (
            CpuLoop { phase: Phase::Reporting, ..cpu },
            Work::PrintReport {
                vm_elapsed: persist.vm_elapsed,
                total_cycles: (now - persist.start) as u64,
            },
        ),
        (Phase::ScheduleClock, Event::Clock { .. }) => hand_out_cpu_work(cpu.emulating),
        (Phase::GuestRunning, Event::Exited { reason, context, .. }) => {
            let emulating = steps_after(reason, cpu.emulating);
            match action_for(reason, context) {
                ExitAction::Resume => (
                    CpuLoop { emulating, phase: Phase::SyncClock },
                    Work::ReadClock,
                ),
                action => (
                    CpuLoop { emulating, phase: Phase::Finishing },
                    Work::Handle { action },
                ),
            }
        },
        (Phase::DevicesStepping, _) => (
            CpuLoop { phase: Phase::ReportClock, ..cpu },
            Work::ReadClock,
        ),
        (Phase::Reporting, _) => (CpuLoop { phase: Phase::ScheduleClock, ..cpu }, Work::ReadClock),
        (_, _) => (CpuLoop { phase: Phase::SyncClock, ..cpu }, Work::ReadClock),
    }
}

/// How an event changes what the loop keeps.
pub open spec fn keeps(
    phase: Phase,
    before: PersistState,
    after: PersistState,
    ticks: u64,
    event: Event,
) -> bool {
    match (phase, event) {
        (Phase::SyncClock, Event::Clock { now }) => after == PersistState {
            last_sync_cycles: now,
            ..before
        },
        (Phase::ScheduleClock, Event::Clock { now }) => after == PersistState {
            future_report: (now + ticks) as u64,
            ..before
        },
        (Phase::GuestRunning, Event::Exited { entered, left, overhead, reason, .. }) => {
            &&& after.vmexits@ == counted(before.vmexits@, reason)
            &&& after == PersistState {
                vm_elapsed: (before.vm_elapsed + run_cycles(entered, left, overhead)) as u64,
                vmexits: after.vmexits,
                ..before
            }
        },
        (_, _) => after == before,
    }
}

/// Whether an event answers the work that was handed out, and the times and
/// numbers in it make sense: the counter has not gone back behind the start of
/// the hypervisor or of a run, and what is computed of them can be held.
pub open spec fn is_answer(cpu: CpuLoop, persist: PersistState, ticks: u64, event: Event) -> bool {
    match cpu.phase {
        Phase::SyncClock | Phase::ReportClock => event is Clock,
        Phase::UptimeClock => event is Clock && persist.start <= event->now,
        Phase::ScheduleClock => event is Clock && event->now + ticks <= u64::MAX,
        Phase::DevicesStepping | Phase::Reporting | Phase::Finishing => event is Done,
        Phase::GuestRunning => event matches Event::Exited {
            entered,
            left,
            overhead,
            reason,
            context,
        } && {
            &&& entered <= left
            &&& persist.vm_elapsed + run_cycles(entered, left, overhead) <= u64::MAX
            &&& count_of(persist.vmexits@, reason) < u64::MAX
            &&& reason == VmExitReason::MsrAccess && context.msr.is_write ==> context.rip
                + context.instruction_length <= u64::MAX
        },
    }
}

impl CpuLoop {
    /// The loop as it is entered. Its first work is to read the clock.
    pub fn new() -> (res: Self)
        ensures
            res == (CpuLoop { emulating: 0, phase: Phase::SyncClock }),
    {
        CpuLoop { emulating: 0, phase: Phase::SyncClock }
    }

    /// Whether `turn` can take an event.
    pub fn accepts(&self, persist: &PersistState, ticks: u64, event: &Event) -> (res: bool)
        ensures
            res == is_answer(*self, *persist, ticks, *event),
    {
        match (self.phase, *event) {
            (Phase::SyncClock, Event::Clock { .. }) => true,
            (Phase::ReportClock, Event::Clock { .. }) => true,
            (Phase::UptimeClock, Event::Clock { now }) => persist.start <= now,
            (Phase::ScheduleClock, Event::Clock { now }) => now.checked_add(ticks).is_some(),
            (Phase::DevicesStepping, Event::Done) => true,
            (Phase::Reporting, Event::Done) => true,
            (Phase::Finishing, Event::Done) => true,
            (
                Phase::GuestRunning,
                Event::Exited { entered, left, overhead, reason, context },
            ) => {
                if entered > left || persist.vmexits.get(reason) == u64::MAX {
                    return false;
                }
                let run: u64 = (left - entered).saturating_sub(overhead);
                let skips: bool = reason == VmExitReason::MsrAccess && context.msr.is_write;
                persist.vm_elapsed.checked_add(run).is_some() && (!skips || context.rip.checked_add(
                    context.instruction_length as u64,
                ).is_some())
            },
            _ => false,
        }
    }

    /// Takes the answer to the work handed out last, and hands out the next.
    /// `ticks` is the number of cycles in a second.
    pub fn turn(&mut self, persist: &mut PersistState, ticks: u64, event: &Event) -> (res: Work)
        requires
            is_answer(*old(self), *old(persist), ticks, *event),
        ensures
            (*final(self), res) == turned(*old(self), *old(persist), *event),
            keeps(old(self).phase, *old(persist), *final(persist), ticks, *event),
    {
        match (self.phase, *event) {
            (Phase::SyncClock, Event::Clock { now }) => {
                let cycles: u64 = persist.sync(now);
                self.phase = Phase::DevicesStepping;
                Work::StepDevices { cycles }
            },
            (Phase::DevicesStepping, _) => {
                self.phase = Phase::ReportClock;
                Work::ReadClock
            },
            (Phase::ReportClock, Event::Clock { now }) => {
                if persist.report_due(now) {
                    self.phase = Phase::UptimeClock;
                    Work::ReadClock
                } else {
                    self.start_cpu()
                }
            },
            (Phase::UptimeClock, Event::Clock { now }) => {
                self.phase = Phase::Reporting;
                Work::PrintReport {
                    vm_elapsed: persist.vm_elapsed,
                    total_cycles: persist.uptime(now),
                }
            },
            (Phase::Reporting, _) => {
                self.phase = Phase::ScheduleClock;
                Work::ReadClock
            },
            (Phase::ScheduleClock, Event::Clock { now }) => {
                persist.schedule_report(now, ticks);
                self.start_cpu()
            },
            (
                Phase::GuestRunning,
                Event::Exited { entered, left, overhead, reason, context },
            ) => {
                persist.record_run(entered, left, overhead);
                persist.record_exit(reason);
                match handle_exit(reason, &context, &mut self.emulating) {
                    ExitAction::Resume => {
                        self.phase = Phase::SyncClock;
                        Work::ReadClock
                    },
                    action => {
                        self.phase = Phase::Finishing;
                        Work::Handle { action }
                    },
                }
            },
            _ => {
                self.phase = Phase::SyncClock;
                Work::ReadClock
            },
        }
    }

    /// Hands out the processor's part of a turn.
    fn start_cpu(&mut self) -> (res: Work)
        ensures
            (*final(self), res) == hand_out_cpu_work(old(self).emulating),
    {
        match next_step(&mut self.emulating) {
            CpuStep::Emulate { steps } => {
                self.phase = Phase::Finishing;
                Work::StepCpu { steps }
            },
            CpuStep::RunGuest => {
                self.phase = Phase::GuestRunning;
                Work::RunGuest
            },
        }
    }
}

/// Whether work is the processor's part of a turn.
pub open spec fn is_cpu_work(work: Work) -> bool {
    work is StepCpu || work is RunGuest
}

/// Whether the devices have been stepped since the processor's last part.
pub open spec fn devices_are_synced(phase: Phase) -> bool {
    match phase {
        Phase::DevicesStepping | Phase::ReportClock | Phase::UptimeClock | Phase::Reporting
        | Phase::ScheduleClock => true,
        Phase::SyncClock | Phase::GuestRunning | Phase::Finishing => false,
    }
}

/// One event of a run of the loop: what the loop and what it keeps were when
/// the event came.
pub struct Moment {
    pub cpu: CpuLoop,
    pub persist: PersistState,
    pub event: Event,
}

/// The work handed out at a moment.
#[verifier::opaque]
pub open spec fn work_of(moment: Moment) -> Work {
    turned(moment.cpu, moment.persist, moment.event).1
}

/// Whether one moment can follow another. Coverage may be recorded in between,
/// which has steps emulated.
pub open spec fn follows(earlier: Moment, later: Moment, ticks: u64) -> bool {
    &&& later.cpu.phase == turned(earlier.cpu, earlier.persist, earlier.event).0.phase
    &&& exists|kept: PersistState| #[trigger]
        keeps(earlier.cpu.phase, earlier.persist, kept, ticks, earlier.event) && later.persist == (
        PersistState { coverage: later.persist.coverage, ..kept })
}

/// Whether these are the moments of a run of the loop, from its entry on.
#[verifier::opaque]
pub open spec fn is_run(run: Seq<Moment>, ticks: u64) -> bool {
    &&& run.len() > 0 ==> run[0].cpu.phase == Phase::SyncClock
    &&& forall|i: int|
        0 <= i < run.len() ==> is_answer(
            (#[trigger] run[i]).cpu,
            run[i].persist,
            ticks,
            run[i].event,
        )
    &&& forall|i: int, j: int|
        0 <= i < run.len() && j == i + 1 && j < run.len() ==> follows(
            #[trigger] run[i],
            #[trigger] run[j],
            ticks,
        )
}

/// Whether `p` and `j` are moments at which the processor gets two consecutive
/// parts. `p` is -1 if `j` is the first.
pub open spec fn are_consecutive_parts(run: Seq<Moment>, p: int, j: int) -> bool {
    &&& -1 <= p < j < run.len()
    &&& p >= 0 ==> is_cpu_work(work_of(run[p]))
    &&& is_cpu_work(work_of(run[j]))
    &&& forall|k: int| p < k < j ==> !is_cpu_work(work_of(#[trigger] run[k]))
}

/// The devices keep up: before each part of the processor, a step of the
/// emulator or a run of the guest, and after the part before it, the devices are
/// stepped exactly once.
pub proof fn law_devices_are_stepped_once_before_each_part(
    run: Seq<Moment>,
    ticks: u64,
    p: int,
    j: int,
)
    requires
        is_run(run, ticks),
        are_consecutive_parts(run, p, j),
    ensures
        exists|i: int|
            p < i < j && work_of(#[trigger] run[i]) is StepDevices && forall|k: int|
                p < k < j && work_of(#[trigger] run[k]) is StepDevices ==> k == i,
{
    lemma_synced(run, ticks, p, j, j);
    lemma_synced_at_part(run, ticks, j);
}

/// Up to the moment `m` after a part of the processor, the devices have been
/// stepped once if the phase says so, and else not at all.
proof fn lemma_synced(run: Seq<Moment>, ticks: u64, p: int, j: int, m: int)
    requires
        is_run(run, ticks),
        are_consecutive_parts(run, p, j),
        p < m <= j,
    ensures
        devices_are_synced(run[m].cpu.phase) ==> exists|i: int|
            p < i < m && work_of(#[trigger] run[i]) is StepDevices && forall|k: int|
                p < k < m && work_of(#[trigger] run[k]) is StepDevices ==> k == i,
        !devices_are_synced(run[m].cpu.phase) ==> forall|k: int|
            p < k < m ==> !(work_of(#[trigger] run[k]) is StepDevices),
    decreases m - p,
{
    if m - 1 > p {
        lemma_synced(run, ticks, p, j, m - 1);
        lemma_next_phase(run, ticks, m - 1);
        assert(!is_cpu_work(work_of(run[m - 1])));
        if devices_are_synced(run[m - 1].cpu.phase) {
            let i = choose|i: int|
                p < i < m - 1 && work_of(#[trigger] run[i]) is StepDevices && forall|k: int|
                    p < k < m - 1 && work_of(#[trigger] run[k]) is StepDevices ==> k == i;
            assert(work_of(run[i]) is StepDevices);
        } else if devices_are_synced(run[m].cpu.phase) {
            assert(work_of(run[m - 1]) is StepDevices);
        }
    } else if p >= 0 {
        lemma_next_phase(run, ticks, p);
    } else {
        reveal(is_run);
    }
}

/// How the work at a moment changes whether the devices have been stepped.
proof fn lemma_next_phase(run: Seq<Moment>, ticks: u64, k: int)
    requires
        is_run(run, ticks),
        0 <= k < run.len() - 1,
    ensures
        ({
            let synced = devices_are_synced(run[k].cpu.phase);
            let next_synced = devices_are_synced(run[k + 1].cpu.phase);
            let work = work_of(run[k]);
            &&& is_cpu_work(work) ==> synced && !next_synced
            &&& work is StepDevices ==> !synced
            &&& !synced ==> (next_synced <==> work is StepDevices)
            &&& synced && !is_cpu_work(work) ==> next_synced
        }),
{
    reveal(is_run);
    reveal(work_of);
    assert(follows(run[k], run[k + 1], ticks));
    assert(is_answer(run[k].cpu, run[k].persist, ticks, run[k].event));
}

/// The processor gets a part only after the devices have been stepped.
proof fn lemma_synced_at_part(run: Seq<Moment>, ticks: u64, j: int)
    requires
        is_run(run, ticks),
        0 <= j < run.len(),
        is_cpu_work(work_of(run[j])),
    ensures
        devices_are_synced(run[j].cpu.phase),
{
    reveal(is_run);
    reveal(work_of);
    assert(is_answer(run[j].cpu, run[j].persist, ticks, run[j].event));
}

/// The time of the last sync of the devices before the moment `k` of a run; that
/// which the loop kept when it was entered, if there was none since.
pub open spec fn last_sync_before(run: Seq<Moment>, k: int) -> u64
    decreases k,
{
    if k <= 0 {
        run[0].persist.last_sync_cycles
    } else if work_of(run[k - 1]) is StepDevices {
        run[k - 1].event->now
    } else {
        last_sync_before(run, k - 1)
    }
}

/// The devices are stepped for the time since they were last: for as many cycles
/// as the counter has gone on since the last sync, and for none if it has gone
/// back. Either way the next sync counts from this one.
pub proof fn law_devices_are_stepped_for_the_time_since_the_last_sync(
    run: Seq<Moment>,
    ticks: u64,
    k: int,
)
    requires
        is_run(run, ticks),
        0 <= k < run.len(),
    ensures
        run[k].persist.last_sync_cycles == last_sync_before(run, k),
        work_of(run[k]) is StepDevices ==> run[k].event is Clock && work_of(run[k]) == (
        Work::StepDevices {
            cycles: elapsed_cycles(last_sync_before(run, k), run[k].event->now) as u64,
        }) && last_sync_before(run, k + 1) == run[k].event->now,
    decreases k,
{
    reveal(is_run);
    reveal(work_of);
    assert(is_answer(run[k].cpu, run[k].persist, ticks, run[k].event));
    if k > 0 {
        law_devices_are_stepped_for_the_time_since_the_last_sync(run, ticks, k - 1);
        assert(follows(run[k - 1], run[k], ticks));
        assert(is_answer(run[k - 1].cpu, run[k - 1].persist, ticks, run[k - 1].event));
    }
}

/// Emulation happens only if an exit, or new coverage, has asked for it, and as
/// often as it has: the processor's part is what was asked for, which is used
/// up by that, and nothing but the answer to a run of the guest asks for more.
pub proof fn law_emulation_is_used_up(
    cpu: CpuLoop,
    persist: PersistState,
    ticks: u64,
    event: Event,
)
    requires
        is_answer(cpu, persist, ticks, event),
    ensures
        ({
            let (next, work) = turned(cpu, persist, event);
            &&& work is StepCpu ==> cpu.emulating > 0 && work == (Work::StepCpu {
                steps: cpu.emulating,
            })
            &&& work is RunGuest ==> cpu.emulating == 0
            &&& is_cpu_work(work) ==> next.emulating == 0
            &&& !is_cpu_work(work) && cpu.phase != Phase::GuestRunning ==> next.emulating
                == cpu.emulating
        }),
{
}

/// After an exit that the devices have to handle, the loop resumes, and the
/// next part of the processor is ten steps of the emulator, whatever had been
/// asked for before.
pub proof fn law_device_exits_are_emulated(
    cpu: CpuLoop,
    persist: PersistState,
    ticks: u64,
    event: Event,
)
    requires
        is_answer(cpu, persist, ticks, event),
        event is Exited,
        is_device_exit(event->reason),
    ensures
        turned(cpu, persist, event).1 == Work::ReadClock,
        hand_out_cpu_work(turned(cpu, persist, event).0.emulating).1 == (Work::StepCpu {
            steps: 10,
        }),
{
}

/// Reports are a second apart: after the next report has been scheduled, it is
/// not printed before `ticks` cycles have passed.
pub proof fn law_reports_are_a_second_apart(
    scheduling: CpuLoop,
    before: PersistState,
    after: PersistState,
    ticks: u64,
    scheduled_at: u64,
    checking: CpuLoop,
    now: u64,
)
    requires
        scheduling.phase == Phase::ScheduleClock,
        is_answer(scheduling, before, ticks, Event::Clock { now: scheduled_at }),
        keeps(scheduling.phase, before, after, ticks, Event::Clock { now: scheduled_at }),
        checking.phase == Phase::ReportClock,
        turned(checking, after, Event::Clock { now }).0.phase == Phase::UptimeClock,
    ensures
        scheduled_at + ticks <= now,
{
}

/// What an exit calls for is the work handed out next, and is not passed over: an
/// interrupt window if a cancelled guest has bit 9 of RFLAGS clear, the write of an
/// MSR behind whose instruction the guest goes on, or a refusal. Where an exit
/// calls for nothing, the next turn starts.
pub proof fn law_exits_are_followed_by_what_they_call_for(
    cpu: CpuLoop,
    persist: PersistState,
    ticks: u64,
    event: Event,
)
    requires
        cpu.phase == Phase::GuestRunning,
        is_answer(cpu, persist, ticks, event),
    ensures
        event is Exited,
        ({
            let reason = event->reason;
            let context = event->context;
            let (next, work) = turned(cpu, persist, event);
            &&& reason == VmExitReason::Canceled && (context.rflags >> 9u64) & 1 == 0 ==> work == (
            Work::Handle { action: ExitAction::RegisterInterruptWindow }) && next.emulating
                == cpu.emulating
            &&& reason == VmExitReason::Canceled && (context.rflags >> 9u64) & 1 == 1 ==> work
                == Work::ReadClock && next.emulating == cpu.emulating
            &&& reason == VmExitReason::MsrAccess && context.msr.is_write ==> next.emulating == 0
                && (work matches Work::Handle {
                action: ExitAction::WriteMsr { number, value, rip },
            } && number == context.msr.number && value & 0xffff_ffff == context.msr.rax & 0xffff_ffff
                && value >> 32u64 == (context.msr.rdx & 0xffff_ffff) | (context.msr.rax >> 32u64)
                && rip - context.rip == context.instruction_length)
            &&& reason == VmExitReason::MsrAccess && !context.msr.is_write ==> work == (
            Work::Handle { action: ExitAction::RefuseMsrRead { number: context.msr.number } })
            &&& reason == VmExitReason::NoReason || reason == VmExitReason::UnrecoverableException
                || reason == VmExitReason::UnsupportedFeature || reason == VmExitReason::ApicEoi
                || reason == VmExitReason::Cpuid || reason == VmExitReason::Exception ==> work == (
            Work::Handle { action: ExitAction::RefuseExit })
            &&& reason == VmExitReason::MemoryAccess || reason == VmExitReason::IoPortAccess
                || reason == VmExitReason::Halt ==> work == Work::ReadClock && next.emulating == 10
            &&& reason == VmExitReason::InvalidVpRegisterValue ==> work == Work::ReadClock
                && next.emulating == 100
            &&& reason == VmExitReason::InterruptWindow ==> work == Work::ReadClock
                && next.emulating == cpu.emulating
            &&& next.phase == if work is Handle {
                Phase::Finishing
            } else {
                Phase::SyncClock
            }
        }),
{
    let context = event->context;
    law_exits_are_answered(event->reason, context, cpu.emulating);
    law_halves_of_an_msr_value(context.msr);
    let rflags = context.rflags;
    assert((rflags >> 9u64) & 1 == 0 || (rflags >> 9u64) & 1 == 1) by (bit_vector);
}

/// A run of the guest is accounted for: its time without the overhead is added to
/// the time spent in the guest, its exit to the exits with that reason, and
/// nothing else changes.
pub proof fn law_runs_are_accounted_for(
    cpu: CpuLoop,
    before: PersistState,
    after: PersistState,
    ticks: u64,
    event: Event,
)
    requires
        cpu.phase == Phase::GuestRunning,
        is_answer(cpu, before, ticks, event),
        keeps(cpu.phase, before, after, ticks, event),
    ensures
        event->entered + event->overhead <= event->left ==> after.vm_elapsed + event->entered
            + event->overhead == before.vm_elapsed + event->left,
        event->left <= event->entered + event->overhead ==> after.vm_elapsed == before.vm_elapsed,
        forall|reason: VmExitReason| #[trigger]
            count_of(after.vmexits@, reason) == count_of(before.vmexits@, reason) + if reason
                == event->reason {
                1nat
            } else {
                0nat
            },
        after.future_report == before.future_report,
        after.start == before.start,
        after.last_sync_cycles == before.last_sync_cycles,
        after.coverage == before.coverage,
{
    law_run_and_overhead_make_up_the_call(event->entered, event->left, event->overhead);
    assert forall|reason: VmExitReason| #[trigger]
        count_of(after.vmexits@, reason) == count_of(before.vmexits@, reason) + if reason
            == event->reason {
            1nat
        } else {
            0nat
        } by {
        law_one_exit_adds_one(before.vmexits@, event->reason, reason);
    }
}

/// At the start of a turn the devices are handed the cycles that lead from the
/// last sync to now, or none if the counter has gone back, and the next sync
/// counts from now. Nothing else changes.
pub proof fn law_turn_starts_with_the_devices(
    cpu: CpuLoop,
    before: PersistState,
    after: PersistState,
    ticks: u64,
    now: u64,
)
    requires
        cpu.phase == Phase::SyncClock,
        keeps(cpu.phase, before, after, ticks, Event::Clock { now }),
    ensures
        turned(cpu, before, Event::Clock { now }).1 matches Work::StepDevices { cycles } && (
        before.last_sync_cycles <= now ==> before.last_sync_cycles + cycles == now) && (now
            <= before.last_sync_cycles ==> cycles == 0),
        turned(cpu, before, Event::Clock { now }).0 == (CpuLoop {
            emulating: cpu.emulating,
            phase: Phase::DevicesStepping,
        }),
        after.last_sync_cycles == now,
        after.future_report == before.future_report,
        after.start == before.start,
        after.vm_elapsed == before.vm_elapsed,
        after.vmexits == before.vmexits,
        after.coverage == before.coverage,
{
}

/// After the devices, the clock is read to see whether a report is due: it is from
/// the time on that was set for it. Without one, the processor gets its part at
/// once. Looking changes nothing that is kept.
pub proof fn law_reports_come_from_their_time_on(
    cpu: CpuLoop,
    persist: PersistState,
    after: PersistState,
    ticks: u64,
    now: u64,
)
    ensures
        cpu.phase == Phase::ReportClock && keeps(
            cpu.phase,
            persist,
            after,
            ticks,
            Event::Clock { now },
        ) ==> after == persist,
        cpu.phase == Phase::DevicesStepping ==> turned(cpu, persist, Event::Done) == (
            CpuLoop { emulating: cpu.emulating, phase: Phase::ReportClock },
            Work::ReadClock,
        ),
        cpu.phase == Phase::ReportClock && persist.future_report <= now ==> turned(
            cpu,
            persist,
            Event::Clock { now },
        ) == (
            CpuLoop { emulating: cpu.emulating, phase: Phase::UptimeClock },
            Work::ReadClock,
        ),
        cpu.phase == Phase::ReportClock && now < persist.future_report ==> is_cpu_work(
            turned(cpu, persist, Event::Clock { now }).1,
        ),
{
}

/// A report gives the time spent in the guest and the time since the start, which
/// leads from the start to now. Once it is printed, the clock is read to set the
/// time of the next, `ticks` cycles from then, and the processor gets its part.
pub proof fn law_reports_give_the_times(
    cpu: CpuLoop,
    before: PersistState,
    after: PersistState,
    ticks: u64,
    now: u64,
)
    requires
        cpu.phase == Phase::UptimeClock || cpu.phase == Phase::ScheduleClock,
        is_answer(cpu, before, ticks, Event::Clock { now }),
        keeps(cpu.phase, before, after, ticks, Event::Clock { now }),
    ensures
        cpu.phase == Phase::UptimeClock ==> after == before && (turned(
            cpu,
            before,
            Event::Clock { now },
        ).1 matches Work::PrintReport { vm_elapsed, total_cycles } && vm_elapsed
            == before.vm_elapsed && before.start + total_cycles == now) && turned(
            cpu,
            before,
            Event::Clock { now },
        ).0 == (CpuLoop { emulating: cpu.emulating, phase: Phase::Reporting }),
        cpu.phase == Phase::ScheduleClock ==> after.future_report - now == ticks && is_cpu_work(
            turned(cpu, before, Event::Clock { now }).1,
        ),
        after.start == before.start,
        after.vm_elapsed == before.vm_elapsed,
        after.last_sync_cycles == before.last_sync_cycles,
        after.vmexits == before.vmexits,
        after.coverage == before.coverage,
{
}

/// Work without an answer of its own leads on, and changes nothing that is kept:
/// after a printed report the clock is read to schedule the next, and after the
/// last work of a turn it is read for the next turn.
pub proof fn law_done_work_leads_on(
    cpu: CpuLoop,
    before: PersistState,
    after: PersistState,
    ticks: u64,
)
    requires
        keeps(cpu.phase, before, after, ticks, Event::Done),
    ensures
        after == before,
        cpu.phase == Phase::Reporting ==> turned(cpu, before, Event::Done) == (
            CpuLoop { emulating: cpu.emulating, phase: Phase::ScheduleClock },
            Work::ReadClock,
        ),
        cpu.phase == Phase::Finishing ==> turned(cpu, before, Event::Done) == (
            CpuLoop { emulating: cpu.emulating, phase: Phase::SyncClock },
            Work::ReadClock,
        ),
{
}

/// The processor's part waits for what it was: a run of the guest for its exit, a
/// step of the emulator for nothing but its end.
pub proof fn law_parts_of_the_cpu(
    cpu: CpuLoop,
    persist: PersistState,
    ticks: u64,
    event: Event,
)
    requires
        is_answer(cpu, persist, ticks, event),
        is_cpu_work(turned(cpu, persist, event).1),
    ensures
        cpu.emulating > 0 ==> turned(cpu, persist, event) == (
            CpuLoop { emulating: 0, phase: Phase::Finishing },
            Work::StepCpu { steps: cpu.emulating },
        ),
        cpu.emulating == 0 ==> turned(cpu, persist, event) == (
            CpuLoop { emulating: 0, phase: Phase::GuestRunning },
            Work::RunGuest,
        ),
{
}

/// Which events are taken. Each kind of work has its kind of answer, and every
/// time of the counter will do, except where a difference would be negative or a
/// sum could not be held.
pub proof fn law_answers_are_taken(
    cpu: CpuLoop,
    persist: PersistState,
    ticks: u64,
    event: Event,
)
    ensures
        cpu.phase == Phase::SyncClock || cpu.phase == Phase::ReportClock ==> (is_answer(
            cpu,
            persist,
            ticks,
            event,
        ) <==> event is Clock),
        cpu.phase == Phase::UptimeClock ==> (is_answer(cpu, persist, ticks, event) <==> event
            is Clock && persist.start <= event->now),
        cpu.phase == Phase::ScheduleClock ==> (is_answer(cpu, persist, ticks, event) <==> event
            is Clock && event->now + ticks < 0x1_0000_0000_0000_0000),
        cpu.phase == Phase::DevicesStepping || cpu.phase == Phase::Reporting || cpu.phase
            == Phase::Finishing ==> (is_answer(cpu, persist, ticks, event) <==> event is Done),
        cpu.phase == Phase::GuestRunning ==> (is_answer(cpu, persist, ticks, event) <==> event
            is Exited && event->entered <= event->left && (event->entered + event->overhead
            <= event->left ==> persist.vm_elapsed + event->left - event->entered - event->overhead
            < 0x1_0000_0000_0000_0000) && count_of(persist.vmexits@, event->reason)
            < 0xffff_ffff_ffff_ffff && (event->reason == VmExitReason::MsrAccess
            && event->context.msr.is_write ==> event->context.rip
            + event->context.instruction_length < 0x1_0000_0000_0000_0000)),
{
}

} // verus!
