use bochservisor::cpu_loop::{next_step, CpuLoop, CpuStep, Event, Phase, Work};
use bochservisor::exits::{handle_exit, ExitAction, ExitContext, MsrAccess};
use bochservisor::kicker::Kicker;
use bochservisor::persist::{enter, EntryWork, PersistState};
use bochservisor::vmexit::{VmExitCounts, VmExitReason};

const ALL: [(i32, VmExitReason); 13] = [
    (0, VmExitReason::NoReason),
    (1, VmExitReason::MemoryAccess),
    (2, VmExitReason::IoPortAccess),
    (4, VmExitReason::UnrecoverableException),
    (5, VmExitReason::InvalidVpRegisterValue),
    (6, VmExitReason::UnsupportedFeature),
    (7, VmExitReason::InterruptWindow),
    (8, VmExitReason::Halt),
    (9, VmExitReason::ApicEoi),
    (0x1000, VmExitReason::MsrAccess),
    (0x1001, VmExitReason::Cpuid),
    (0x1002, VmExitReason::Exception),
    (0x2001, VmExitReason::Canceled),
];

fn context() -> ExitContext {
    ExitContext {
        rip: 0x1000,
        rflags: 0x202,
        instruction_length: 2,
        msr: MsrAccess { number: 0x1b, is_write: true, rax: 0xfee0_0900, rdx: 0x1_0000_0002 },
    }
}

#[test]
fn exit_codes_give_their_reasons() {
    for (code, reason) in ALL {
        assert!(VmExitReason::is_whvp(code));
        assert_eq!(VmExitReason::from_whvp(code), reason);
    }
    for code in [-1, 3, 10, 0xfff, 0x1003, 0x2000, 0x2002, i32::MAX, i32::MIN] {
        assert!(!VmExitReason::is_whvp(code));
    }
}

#[test]
fn exits_are_counted() {
    let mut counts = VmExitCounts::new();
    assert_eq!(counts.entries(), vec![]);
    counts.record(VmExitReason::Canceled);
    counts.record(VmExitReason::Halt);
    counts.record(VmExitReason::Canceled);
    counts.record(VmExitReason::NoReason);
    assert_eq!(
        counts.entries(),
        vec![
            (VmExitReason::NoReason, 1),
            (VmExitReason::Halt, 1),
            (VmExitReason::Canceled, 2),
        ]
    );
    for (_, reason) in ALL {
        counts.record(reason);
    }
    assert_eq!(counts.entries().len(), 13);
    assert_eq!(counts.entries().iter().map(|e| e.1).sum::<u64>(), 17);
}

#[test]
fn emulation_is_used_up() {
    let mut emulating = 10;
    assert_eq!(next_step(&mut emulating), CpuStep::Emulate { steps: 10 });
    assert_eq!(emulating, 0);
    assert_eq!(next_step(&mut emulating), CpuStep::RunGuest);
    assert_eq!(emulating, 0);
}

#[test]
fn device_exits_are_emulated() {
    for reason in [VmExitReason::MemoryAccess, VmExitReason::IoPortAccess, VmExitReason::Halt] {
        for before in [0, 100] {
            let mut emulating = before;
            assert_eq!(handle_exit(reason, &context(), &mut emulating), ExitAction::Resume);
            assert_eq!(next_step(&mut emulating), CpuStep::Emulate { steps: 10 });
            assert_eq!(next_step(&mut emulating), CpuStep::RunGuest);
        }
    }
}

#[test]
fn invalid_state_is_emulated() {
    let mut emulating = 0;
    let action = handle_exit(VmExitReason::InvalidVpRegisterValue, &context(), &mut emulating);
    assert_eq!(action, ExitAction::Resume);
    assert_eq!(emulating, 100);
}

#[test]
fn cancel_with_interrupts_disabled_asks_for_a_window() {
    let mut emulating = 0;
    let mut ctx = context();
    assert_eq!(handle_exit(VmExitReason::Canceled, &ctx, &mut emulating), ExitAction::Resume);
    ctx.rflags = !0x200;
    assert_eq!(
        handle_exit(VmExitReason::Canceled, &ctx, &mut emulating),
        ExitAction::RegisterInterruptWindow
    );
    assert_eq!(emulating, 0);
    // What new coverage has asked for stays
    emulating = 100;
    handle_exit(VmExitReason::Canceled, &ctx, &mut emulating);
    assert_eq!(emulating, 100);
}

#[test]
fn interrupt_window_needs_nothing() {
    let mut emulating = 100;
    let action = handle_exit(VmExitReason::InterruptWindow, &context(), &mut emulating);
    assert_eq!(action, ExitAction::Resume);
    assert_eq!(emulating, 100);
}

#[test]
fn msr_write_takes_edx_and_eax() {
    let mut emulating = 100;
    let mut ctx = context();
    assert_eq!(
        handle_exit(VmExitReason::MsrAccess, &ctx, &mut emulating),
        ExitAction::WriteMsr { number: 0x1b, value: 0x2_fee0_0900, rip: 0x1002 }
    );
    assert_eq!(emulating, 0);
    ctx.msr.rax = 0x8_0000_0001;
    ctx.msr.rdx = 7;
    assert_eq!(
        handle_exit(VmExitReason::MsrAccess, &ctx, &mut emulating),
        ExitAction::WriteMsr { number: 0x1b, value: 0xf_0000_0001, rip: 0x1002 }
    );
}

#[test]
fn msr_read_is_refused() {
    let mut emulating = 0;
    let mut ctx = context();
    ctx.msr.is_write = false;
    ctx.rip = u64::MAX;
    assert_eq!(
        handle_exit(VmExitReason::MsrAccess, &ctx, &mut emulating),
        ExitAction::RefuseMsrRead { number: 0x1b }
    );
}

#[test]
fn other_exits_are_refused() {
    for reason in [
        VmExitReason::NoReason,
        VmExitReason::UnrecoverableException,
        VmExitReason::UnsupportedFeature,
        VmExitReason::ApicEoi,
        VmExitReason::Cpuid,
        VmExitReason::Exception,
    ] {
        let mut emulating = 0;
        assert_eq!(handle_exit(reason, &context(), &mut emulating), ExitAction::RefuseExit);
    }
}

#[test]
fn devices_are_synced_with_the_clock() {
    let mut state = PersistState::started(0, 0, 0, 1000);
    assert_eq!(state.sync(1500), 500);
    assert_eq!(state.sync(1700), 200);
    assert_eq!(state.last_sync_cycles, 1700);
    // The counter goes back
    assert_eq!(state.sync(1600), 0);
    assert_eq!(state.sync(1650), 50);
}

#[test]
fn reports_come_every_second() {
    let mut state = PersistState::started(5, 100, 7, 9);
    assert_eq!((state.future_report, state.start, state.vm_elapsed), (105, 7, 0));
    assert!(!state.report_due(104));
    assert!(state.report_due(105));
    assert_eq!(state.uptime(107), 100);
    state.schedule_report(110, 100);
    assert!(!state.report_due(209));
    assert!(state.report_due(210));
}

#[test]
fn guest_time_leaves_the_overhead_out() {
    let mut state = PersistState::started(0, 0, 100, 0);
    state.record_run(100, 400, 50);
    assert_eq!(state.vm_elapsed, 250);
    // Noise: the call took less than the overhead
    state.record_run(400, 430, 50);
    assert_eq!(state.vm_elapsed, 250);
    state.record_run(430, 500, 50);
    assert_eq!(state.vm_elapsed, 270);
    assert!(state.vm_elapsed <= state.uptime(500));
}

#[test]
fn state_counts_exits_and_coverage() {
    let mut state = PersistState::started(0, 0, 0, 0);
    state.record_exit(VmExitReason::Halt);
    assert_eq!(state.vmexits.entries(), vec![(VmExitReason::Halt, 1)]);
    let mut emulating = 0;
    assert!(state.record_coverage(Some("ntdll.dll"), 0x10, &mut emulating));
    assert_eq!(next_step(&mut emulating), CpuStep::Emulate { steps: 100 });
    assert!(!state.record_coverage(Some("ntdll.dll"), 0x10, &mut emulating));
    assert_eq!(next_step(&mut emulating), CpuStep::RunGuest);
}

#[test]
fn kicker_waits_for_the_deadline() {
    let mut kicker = Kicker::Idle;
    assert!(!kicker.poll(false, 10, 100));
    assert_eq!(kicker, Kicker::Idle);
    assert!(!kicker.poll(true, 20, 100));
    assert_eq!(kicker, Kicker::Armed { deadline: 120 });
    assert!(!kicker.poll(true, 119, 100));
    assert_eq!(kicker, Kicker::Armed { deadline: 120 });
    assert!(!kicker.poll(true, 120, 100));
    assert_eq!(kicker, Kicker::Due);
    assert!(kicker.poll(true, 121, 100));
    assert_eq!(kicker, Kicker::Idle);
}

#[test]
fn kicker_leaves_a_stopped_guest_alone() {
    let mut kicker = Kicker::Idle;
    assert!(!kicker.poll(true, 20, 100));
    assert!(!kicker.poll(false, 30, 100));
    assert_eq!(kicker, Kicker::Due);
    assert!(!kicker.poll(false, 31, 100));
    assert_eq!(kicker, Kicker::Idle);
}

const TICKS: u64 = 1000;

fn exited(reason: VmExitReason) -> Event {
    Event::Exited { entered: 200, left: 300, overhead: 40, reason, context: context() }
}

/// Takes the loop from the start of a turn, without a report, to the
/// processor's part.
fn to_cpu_work(cpu: &mut CpuLoop, state: &mut PersistState, now: u64) -> Work {
    assert_eq!(cpu.phase, Phase::SyncClock);
    let cycles = now.saturating_sub(state.last_sync_cycles);
    let work = cpu.turn(state, TICKS, &Event::Clock { now });
    assert_eq!(work, Work::StepDevices { cycles });
    assert_eq!(cpu.turn(state, TICKS, &Event::Done), Work::ReadClock);
    cpu.turn(state, TICKS, &Event::Clock { now })
}

#[test]
fn loop_runs_the_guest_first() {
    let mut state = PersistState::started(0, TICKS, 0, 50);
    let mut cpu = CpuLoop::new();
    assert_eq!(to_cpu_work(&mut cpu, &mut state, 150), Work::RunGuest);
    assert_eq!(cpu.phase, Phase::GuestRunning);
    assert_eq!(state.last_sync_cycles, 150);
}

#[test]
fn loop_emulates_after_a_device_exit() {
    let mut state = PersistState::started(0, TICKS, 0, 0);
    let mut cpu = CpuLoop::new();
    assert_eq!(to_cpu_work(&mut cpu, &mut state, 150), Work::RunGuest);
    let work = cpu.turn(&mut state, TICKS, &exited(VmExitReason::IoPortAccess));
    assert_eq!(work, Work::ReadClock);
    assert_eq!(state.vm_elapsed, 60);
    assert_eq!(state.vmexits.entries(), vec![(VmExitReason::IoPortAccess, 1)]);
    assert_eq!(to_cpu_work(&mut cpu, &mut state, 160), Work::StepCpu { steps: 10 });
    assert_eq!(cpu.turn(&mut state, TICKS, &Event::Done), Work::ReadClock);
    assert_eq!(to_cpu_work(&mut cpu, &mut state, 170), Work::RunGuest);
}

#[test]
fn loop_hands_out_what_an_exit_calls_for() {
    let mut state = PersistState::started(0, TICKS, 0, 0);
    let mut cpu = CpuLoop::new();
    to_cpu_work(&mut cpu, &mut state, 150);
    assert_eq!(
        cpu.turn(&mut state, TICKS, &exited(VmExitReason::MsrAccess)),
        Work::Handle {
            action: ExitAction::WriteMsr { number: 0x1b, value: 0x2_fee0_0900, rip: 0x1002 }
        }
    );
    assert_eq!(cpu.turn(&mut state, TICKS, &Event::Done), Work::ReadClock);
    assert_eq!(to_cpu_work(&mut cpu, &mut state, 150), Work::RunGuest);
    assert_eq!(
        cpu.turn(&mut state, TICKS, &exited(VmExitReason::Cpuid)),
        Work::Handle { action: ExitAction::RefuseExit }
    );
}

#[test]
fn loop_reports_when_it_is_due() {
    let mut state = PersistState::started(0, TICKS, 100, 0);
    state.record_run(100, 400, 0);
    let mut cpu = CpuLoop::new();
    assert_eq!(to_cpu_work(&mut cpu, &mut state, 1000), Work::ReadClock);
    assert_eq!(
        cpu.turn(&mut state, TICKS, &Event::Clock { now: 1100 }),
        Work::PrintReport { vm_elapsed: 300, total_cycles: 1000 }
    );
    assert_eq!(cpu.turn(&mut state, TICKS, &Event::Done), Work::ReadClock);
    assert_eq!(cpu.turn(&mut state, TICKS, &Event::Clock { now: 1200 }), Work::RunGuest);
    assert_eq!(state.future_report, 2200);
    cpu.turn(&mut state, TICKS, &exited(VmExitReason::InterruptWindow));
    assert_eq!(to_cpu_work(&mut cpu, &mut state, 2199), Work::RunGuest);
}

#[test]
fn loop_accepts_only_answers() {
    let mut state = PersistState::started(0, TICKS, 100, 0);
    let clock = |now| Event::Clock { now };
    let at = |phase| CpuLoop { emulating: 0, phase };
    assert!(at(Phase::SyncClock).accepts(&state, TICKS, &clock(0)));
    assert!(!at(Phase::SyncClock).accepts(&state, TICKS, &Event::Done));
    assert!(at(Phase::ReportClock).accepts(&state, TICKS, &clock(0)));
    assert!(at(Phase::UptimeClock).accepts(&state, TICKS, &clock(100)));
    assert!(!at(Phase::UptimeClock).accepts(&state, TICKS, &clock(99)));
    assert!(at(Phase::ScheduleClock).accepts(&state, TICKS, &clock(u64::MAX - TICKS)));
    assert!(!at(Phase::ScheduleClock).accepts(&state, TICKS, &clock(u64::MAX - TICKS + 1)));
    for phase in [Phase::DevicesStepping, Phase::Reporting, Phase::Finishing] {
        assert!(at(phase).accepts(&state, TICKS, &Event::Done));
        assert!(!at(phase).accepts(&state, TICKS, &clock(0)));
    }
    let running = at(Phase::GuestRunning);
    assert!(running.accepts(&state, TICKS, &exited(VmExitReason::MsrAccess)));
    assert!(!running.accepts(&state, TICKS, &Event::Done));
    let run = |entered, left, rip| Event::Exited {
        entered,
        left,
        overhead: 0,
        reason: VmExitReason::MsrAccess,
        context: ExitContext { rip, ..context() },
    };
    assert!(!running.accepts(&state, TICKS, &run(2, 1, 0)));
    assert!(running.accepts(&state, TICKS, &run(1, 2, u64::MAX - 2)));
    assert!(!running.accepts(&state, TICKS, &run(1, 2, u64::MAX - 1)));
    state.vm_elapsed = u64::MAX - 5;
    assert!(running.accepts(&state, TICKS, &run(1, 6, 0)));
    assert!(!running.accepts(&state, TICKS, &run(1, 7, 0)));
}

#[test]
fn entry_work_is_done_once() {
    let work = |measure_rate, create_hypervisor| EntryWork { measure_rate, create_hypervisor };
    assert_eq!(enter(false, false), work(true, true));
    assert_eq!(enter(true, false), work(false, true));
    assert_eq!(enter(false, true), work(true, false));
    assert_eq!(enter(true, true), work(false, false));
}

#[test]
fn kicks_of_a_running_guest_are_apart() {
    let mut kicker = Kicker::Idle;
    let mut kicks = Vec::new();
    for now in 0..1000 {
        if kicker.poll(true, now, 100) {
            kicks.push(now);
        }
    }
    assert_eq!(kicks, vec![101, 203, 305, 407, 509, 611, 713, 815, 917]);
}

#[test]
fn devices_are_stepped_once_before_each_part_of_the_cpu() {
    let mut state = PersistState::started(0, TICKS, 0, 7);
    let mut cpu = CpuLoop::new();
    let mut work = Work::ReadClock;
    let mut now = 1000;
    let mut steps = Vec::new();
    let mut parts = 0;
    while parts < 50 {
        let event = match work {
            Work::ReadClock => {
                now += 13;
                Event::Clock { now }
            }
            Work::RunGuest => exited(VmExitReason::Halt),
            _ => Event::Done,
        };
        work = cpu.turn(&mut state, TICKS, &event);
        match work {
            Work::StepDevices { cycles } => steps.push(cycles),
            Work::StepCpu { .. } | Work::RunGuest => {
                parts += 1;
                assert_eq!(steps.len(), parts);
            }
            _ => {}
        }
    }
    // No time is lost
    assert_eq!(steps.iter().sum::<u64>(), state.last_sync_cycles - 7);
}
