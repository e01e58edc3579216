//! What a VM exit calls for.

use vstd::prelude::*;

use crate::vmexit::VmExitReason;

verus! {

/// Steps to emulate after an exit that the emulator's devices have to handle:
/// an access to memory without backing, port I/O, or a halt.
pub const DEVICE_STEPS: u64 = 10;

/// Steps to emulate after the hypervisor has refused the processor's state.
pub const INVALID_STATE_STEPS: u64 = 100;

/// The interrupt enable flag in RFLAGS.
pub const RFLAGS_IF: u64 = 0x200;

/// An access to a model specific register that the guest was stopped at.
#[derive(Clone, Copy, Debug)]
pub struct MsrAccess {
    /// Number of the register
    pub number: u32,
    /// Whether the register is written
    pub is_write: bool,
    /// RAX at the access
    pub rax: u64,
    /// RDX at the access
    pub rdx: u64,
}

/// What an exit leaves behind of the guest's processor.
#[derive(Clone, Copy, Debug)]
pub struct ExitContext {
    /// Instruction pointer
    pub rip: u64,
    /// Flags
    pub rflags: u64,
    /// Length of the instruction at `rip`
    pub instruction_length: u8,
    /// The register access, if that is what the guest was stopped at
    pub msr: MsrAccess,
}

/// What an exit calls for, beside steps to emulate.
#[derive(Clone, Copy, PartialEq, Eq, Structural, Debug)]
pub enum ExitAction {
    /// Nothing
    Resume,
    /// Ask the hypervisor to exit as soon as the guest can take interrupts
    RegisterInterruptWindow,
    /// Write an MSR and go on behind the instruction, at `rip`
    WriteMsr { number: u32, value: u64, rip: u64 },
    /// Give up: reads of MSRs are not handled
    RefuseMsrRead { number: u32 },
    /// Give up: exits of this kind are not handled
    RefuseExit,
}

/// The value that a write of an MSR takes from the registers: RDX above RAX.
pub open spec fn msr_value(msr: MsrAccess) -> u64 {
    (msr.rdx << 32u64) | msr.rax
}

/// Whether an exit is for the emulator's devices to handle.
pub open spec fn is_device_exit(reason: VmExitReason) -> bool {
    reason == VmExitReason::MemoryAccess || reason == VmExitReason::IoPortAccess || reason
        == VmExitReason::Halt
}

/// Whether the loop can go on after an exit at all.
pub open spec fn is_handled(reason: VmExitReason, msr: MsrAccess) -> bool {
    ||| is_device_exit(reason)
    ||| reason == VmExitReason::InvalidVpRegisterValue
    ||| reason == VmExitReason::Canceled
    ||| reason == VmExitReason::InterruptWindow
    ||| reason == VmExitReason::MsrAccess && msr.is_write
}

/// Whether the guest takes interrupts.
pub open spec fn interrupts_enabled(rflags: u64) -> bool {
    (rflags / RFLAGS_IF) % 2 == 1
}

/// The steps to emulate after an exit, `emulating` of them having been asked
/// for before.
pub open spec fn steps_after(reason: VmExitReason, emulating: u64) -> u64 {
    if is_device_exit(reason) {
        DEVICE_STEPS
    } else if reason == VmExitReason::InvalidVpRegisterValue {
        INVALID_STATE_STEPS
    } else if reason == VmExitReason::MsrAccess {
        0
    } else {
        emulating
    }
}

/// What an exit calls for.
pub open spec fn action_for(reason: VmExitReason, context: ExitContext) -> ExitAction {
    if reason == VmExitReason::MsrAccess && !context.msr.is_write {
        ExitAction::RefuseMsrRead { number: context.msr.number }
    } else if !is_handled(reason, context.msr) {
        ExitAction::RefuseExit
    } else if reason == VmExitReason::MsrAccess {
        ExitAction::WriteMsr {
            number: context.msr.number,
            value: msr_value(context.msr),
            rip: (context.rip + context.instruction_length) as u64,
        }
    } else if reason == VmExitReason::Canceled && !interrupts_enabled(context.rflags) {
        ExitAction::RegisterInterruptWindow
    } else {
        ExitAction::Resume
    }
}

/// Decides what to do about an exit.
pub fn handle_exit(reason: VmExitReason, context: &ExitContext, emulating: &mut u64) -> (res:
    ExitAction)
    requires
        reason == VmExitReason::MsrAccess && context.msr.is_write ==> context.rip
            + context.instruction_length <= u64::MAX,
    ensures
        res == action_for(reason, *context),
        *final(emulating) == steps_after(reason, *old(emulating)),
        res matches ExitAction::WriteMsr { number, rip, .. } ==> number == context.msr.number && rip
            == context.rip + context.instruction_length,
{
    match reason {
        VmExitReason::MemoryAccess | VmExitReason::IoPortAccess | VmExitReason::Halt => {
            // Let the devices handle it by emulating for a bit
            *emulating = DEVICE_STEPS;
            ExitAction::Resume
        },
        VmExitReason::Canceled => {
            let rflags: u64 = context.rflags;
            assert((rflags & 0x200 == 0) == ((rflags / 0x200) % 2 == 0)) by (bit_vector);
            if rflags & RFLAGS_IF == 0 {
                // Interrupts are disabled: be notified when they are enabled,
                // so that they can be delivered then
                ExitAction::RegisterInterruptWindow
            } else {
                ExitAction::Resume
            }
        },
        VmExitReason::InvalidVpRegisterValue => {
            *emulating = INVALID_STATE_STEPS;
            ExitAction::Resume
        },
        // Interrupts are delivered when the devices are stepped
        VmExitReason::InterruptWindow => ExitAction::Resume,
        VmExitReason::MsrAccess => {
            *emulating = 0;
            if context.msr.is_write {
                ExitAction::WriteMsr {
                    number: context.msr.number,
                    value: (context.msr.rdx << 32u64) | context.msr.rax,
                    rip: context.rip + context.instruction_length as u64,
                }
            } else {
                ExitAction::RefuseMsrRead { number: context.msr.number }
            }
        },
        _ => ExitAction::RefuseExit,
    }
}

/// A write of an MSR takes the low half of its value from EAX and the high half
/// from EDX.
pub proof fn law_msr_value_is_edx_eax(msr: MsrAccess)
    requires
        msr.rax <= u32::MAX,
    ensures
        msr_value(msr) as int == (msr.rdx as int % 0x1_0000_0000) * 0x1_0000_0000 + msr.rax,
{
    let rdx = msr.rdx;
    let rax = msr.rax;
    assert((rdx << 32u64) | rax == (rdx % 0x1_0000_0000) * 0x1_0000_0000 + rax) by (bit_vector)
        requires
            rax <= 0xffff_ffff,
    ;
}

/// The loop gives up on an exit if and only if it is not handled.
pub proof fn law_gives_up_only_on_unhandled_exits(reason: VmExitReason, context: ExitContext)
    ensures
        (action_for(reason, context) is RefuseExit || action_for(
            reason,
            context,
        ) is RefuseMsrRead) <==> !is_handled(reason, context.msr),
{
}

/// What each exit is answered with. Device accesses and halts get ten steps of
/// the emulator, a refused state a hundred. A cancelled run asks for an interrupt
/// window exactly if bit 9 of RFLAGS is clear. A write of an MSR goes to the
/// register that the guest named, and the guest goes on as many bytes behind the
/// instruction as the instruction is long. All else is refused.
pub proof fn law_exits_are_answered(reason: VmExitReason, context: ExitContext, emulating: u64)
    requires
        reason == VmExitReason::MsrAccess && context.msr.is_write ==> context.rip
            + context.instruction_length <= u64::MAX,
    ensures
        reason == VmExitReason::MemoryAccess || reason == VmExitReason::IoPortAccess || reason
            == VmExitReason::Halt ==> action_for(reason, context) == ExitAction::Resume
            && steps_after(reason, emulating) == 10,
        reason == VmExitReason::InvalidVpRegisterValue ==> action_for(reason, context)
            == ExitAction::Resume && steps_after(reason, emulating) == 100,
        reason == VmExitReason::InterruptWindow ==> action_for(reason, context)
            == ExitAction::Resume && steps_after(reason, emulating) == emulating,
        reason == VmExitReason::Canceled ==> steps_after(reason, emulating) == emulating,
        reason == VmExitReason::Canceled && (context.rflags >> 9u64) & 1 == 0 ==> action_for(
            reason,
            context,
        ) == ExitAction::RegisterInterruptWindow,
        reason == VmExitReason::Canceled && (context.rflags >> 9u64) & 1 == 1 ==> action_for(
            reason,
            context,
        ) == ExitAction::Resume,
        reason == VmExitReason::MsrAccess && !context.msr.is_write ==> action_for(reason, context)
            == (ExitAction::RefuseMsrRead { number: context.msr.number }),
        reason == VmExitReason::MsrAccess && context.msr.is_write ==> steps_after(
            reason,
            emulating,
        ) == 0 && (action_for(reason, context) matches ExitAction::WriteMsr { number, value, rip }
            && number == context.msr.number && value == msr_value(context.msr) && rip - context.rip
            == context.instruction_length),
        reason == VmExitReason::NoReason || reason == VmExitReason::UnrecoverableException || reason
            == VmExitReason::UnsupportedFeature || reason == VmExitReason::ApicEoi || reason
            == VmExitReason::Cpuid || reason == VmExitReason::Exception ==> action_for(
            reason,
            context,
        ) == ExitAction::RefuseExit,
{
    let rflags = context.rflags;
    assert((rflags >> 9u64) & 1 == (rflags / 0x200) % 2) by (bit_vector);
}

/// The low half of the value of an MSR write is that of RAX. The high half has
/// the bits of EDX, and those of the high half of RAX.
pub proof fn law_halves_of_an_msr_value(msr: MsrAccess)
    ensures
        msr_value(msr) & 0xffff_ffff == msr.rax & 0xffff_ffff,
        msr_value(msr) >> 32u64 == (msr.rdx & 0xffff_ffff) | (msr.rax >> 32u64),
{
    let rdx = msr.rdx;
    let rax = msr.rax;
    assert(((rdx << 32u64) | rax) & 0xffff_ffff == rax & 0xffff_ffff) by (bit_vector);
    assert(((rdx << 32u64) | rax) >> 32u64 == (rdx & 0xffff_ffff) | (rax >> 32u64))
        by (bit_vector);
}

} // verus!
