//! Why the hypervisor handed control back, and how often.

use vstd::prelude::*;

verus! {

/// Reason of a VM exit.
#[derive(Clone, Copy, Hash, PartialEq, Eq, Structural, Debug)]
pub enum VmExitReason {
    NoReason,
    MemoryAccess,
    IoPortAccess,
    UnrecoverableException,
    InvalidVpRegisterValue,
    UnsupportedFeature,
    InterruptWindow,
    Halt,
    ApicEoi,
    MsrAccess,
    Cpuid,
    Exception,
    Canceled,
}

/// `WHvRunVpExitReasonNone`
pub const EXIT_NONE: i32 = 0;

/// `WHvRunVpExitReasonMemoryAccess`
pub const EXIT_MEMORY_ACCESS: i32 = 1;

/// `WHvRunVpExitReasonX64IoPortAccess`
pub const EXIT_IO_PORT_ACCESS: i32 = 2;

/// `WHvRunVpExitReasonUnrecoverableException`
pub const EXIT_UNRECOVERABLE_EXCEPTION: i32 = 4;

/// `WHvRunVpExitReasonInvalidVpRegisterValue`
pub const EXIT_INVALID_VP_REGISTER_VALUE: i32 = 5;

/// `WHvRunVpExitReasonUnsupportedFeature`
pub const EXIT_UNSUPPORTED_FEATURE: i32 = 6;

/// `WHvRunVpExitReasonX64InterruptWindow`
pub const EXIT_INTERRUPT_WINDOW: i32 = 7;

/// `WHvRunVpExitReasonX64Halt`
pub const EXIT_HALT: i32 = 8;

/// `WHvRunVpExitReasonX64ApicEoi`
pub const EXIT_APIC_EOI: i32 = 9;

/// `WHvRunVpExitReasonX64MsrAccess`
pub const EXIT_MSR_ACCESS: i32 = 0x1000;

/// `WHvRunVpExitReasonX64Cpuid`
pub const EXIT_CPUID: i32 = 0x1001;

/// `WHvRunVpExitReasonException`
pub const EXIT_EXCEPTION: i32 = 0x1002;

/// `WHvRunVpExitReasonCanceled`
pub const EXIT_CANCELED: i32 = 0x2001;

impl VmExitReason {
    /// The hypervisor's number for a reason.
    pub open spec fn whvp_code(self) -> i32 {
        match self {
            VmExitReason::NoReason => EXIT_NONE,
            VmExitReason::MemoryAccess => EXIT_MEMORY_ACCESS,
            VmExitReason::IoPortAccess => EXIT_IO_PORT_ACCESS,
            VmExitReason::UnrecoverableException => EXIT_UNRECOVERABLE_EXCEPTION,
            VmExitReason::InvalidVpRegisterValue => EXIT_INVALID_VP_REGISTER_VALUE,
            VmExitReason::UnsupportedFeature => EXIT_UNSUPPORTED_FEATURE,
            VmExitReason::InterruptWindow => EXIT_INTERRUPT_WINDOW,
            VmExitReason::Halt => EXIT_HALT,
            VmExitReason::ApicEoi => EXIT_APIC_EOI,
            VmExitReason::MsrAccess => EXIT_MSR_ACCESS,
            VmExitReason::Cpuid => EXIT_CPUID,
            VmExitReason::Exception => EXIT_EXCEPTION,
            VmExitReason::Canceled => EXIT_CANCELED,
        }
    }

    /// Whether a number is that of a reason.
    pub open spec fn is_code(code: i32) -> bool {
        ||| EXIT_NONE <= code <= EXIT_IO_PORT_ACCESS
        ||| EXIT_UNRECOVERABLE_EXCEPTION <= code <= EXIT_APIC_EOI
        ||| EXIT_MSR_ACCESS <= code <= EXIT_EXCEPTION
        ||| code == EXIT_CANCELED
    }

    /// Whether a number is that of a reason.
    pub fn is_whvp(whvp_reason: i32) -> (res: bool)
        ensures
            res == VmExitReason::is_code(whvp_reason),
    {
        Self::find(whvp_reason).is_some()
    }

    /// The reason that the hypervisor's number stands for.
    pub fn from_whvp(whvp_reason: i32) -> (res: VmExitReason)
        requires
            VmExitReason::is_code(whvp_reason),
        ensures
            res.whvp_code() == whvp_reason,
    {
        Self::find(whvp_reason).unwrap()
    }

    /// The reason with a number, if there is one.
    fn find(whvp_reason: i32) -> (res: Option<VmExitReason>)
        ensures
            res is Some <==> VmExitReason::is_code(whvp_reason),
            res matches Some(reason) ==> reason.whvp_code() == whvp_reason,
    {
        match whvp_reason {
            EXIT_NONE => Some(VmExitReason::NoReason),
            EXIT_MEMORY_ACCESS => Some(VmExitReason::MemoryAccess),
            EXIT_IO_PORT_ACCESS => Some(VmExitReason::IoPortAccess),
            EXIT_UNRECOVERABLE_EXCEPTION => Some(VmExitReason::UnrecoverableException),
            EXIT_INVALID_VP_REGISTER_VALUE => Some(VmExitReason::InvalidVpRegisterValue),
            EXIT_UNSUPPORTED_FEATURE => Some(VmExitReason::UnsupportedFeature),
            EXIT_INTERRUPT_WINDOW => Some(VmExitReason::InterruptWindow),
            EXIT_HALT => Some(VmExitReason::Halt),
            EXIT_APIC_EOI => Some(VmExitReason::ApicEoi),
            EXIT_MSR_ACCESS => Some(VmExitReason::MsrAccess),
            EXIT_CPUID => Some(VmExitReason::Cpuid),
            EXIT_EXCEPTION => Some(VmExitReason::Exception),
            EXIT_CANCELED => Some(VmExitReason::Canceled),
            _ => None,
        }
    }
}

/// Number of reasons.
pub const REASON_COUNT: usize = 13;

impl VmExitReason {
    /// Position of a reason in the list of reasons.
    pub open spec fn position(self) -> int {
        match self {
            VmExitReason::NoReason => 0,
            VmExitReason::MemoryAccess => 1,
            VmExitReason::IoPortAccess => 2,
            VmExitReason::UnrecoverableException => 3,
            VmExitReason::InvalidVpRegisterValue => 4,
            VmExitReason::UnsupportedFeature => 5,
            VmExitReason::InterruptWindow => 6,
            VmExitReason::Halt => 7,
            VmExitReason::ApicEoi => 8,
            VmExitReason::MsrAccess => 9,
            VmExitReason::Cpuid => 10,
            VmExitReason::Exception => 11,
            VmExitReason::Canceled => 12,
        }
    }

    fn to_position(self) -> (res: usize)
        ensures
            res == self.position(),
    {
        match self {
            VmExitReason::NoReason => 0,
            VmExitReason::MemoryAccess => 1,
            VmExitReason::IoPortAccess => 2,
            VmExitReason::UnrecoverableException => 3,
            VmExitReason::InvalidVpRegisterValue => 4,
            VmExitReason::UnsupportedFeature => 5,
            VmExitReason::InterruptWindow => 6,
            VmExitReason::Halt => 7,
            VmExitReason::ApicEoi => 8,
            VmExitReason::MsrAccess => 9,
            VmExitReason::Cpuid => 10,
            VmExitReason::Exception => 11,
            VmExitReason::Canceled => 12,
        }
    }

    fn from_position(position: usize) -> (res: VmExitReason)
        requires
            position < REASON_COUNT,
        ensures
            res.position() == position,
    {
        if position == 0 {
            VmExitReason::NoReason
        } else if position == 1 {
            VmExitReason::MemoryAccess
        } else if position == 2 {
            VmExitReason::IoPortAccess
        } else if position == 3 {
            VmExitReason::UnrecoverableException
        } else if position == 4 {
            VmExitReason::InvalidVpRegisterValue
        } else if position == 5 {
            VmExitReason::UnsupportedFeature
        } else if position == 6 {
            VmExitReason::InterruptWindow
        } else if position == 7 {
            VmExitReason::Halt
        } else if position == 8 {
            VmExitReason::ApicEoi
        } else if position == 9 {
            VmExitReason::MsrAccess
        } else if position == 10 {
            VmExitReason::Cpuid
        } else if position == 11 {
            VmExitReason::Exception
        } else {
            VmExitReason::Canceled
        }
    }
}

/// VM exit reason frequencies. Holds the reasons that have occurred, each with
/// the number of times.
pub struct VmExitCounts {
    counts: [u64; 13],
}

impl View for VmExitCounts {
    type V = Map<VmExitReason, nat>;

    closed spec fn view(&self) -> Map<VmExitReason, nat> {
        Map::new(
            |reason: VmExitReason| self.counts@[reason.position()] > 0,
            |reason: VmExitReason| self.counts@[reason.position()] as nat,
        )
    }
}

/// How often a reason has occurred.
pub open spec fn count_of(counts: Map<VmExitReason, nat>, reason: VmExitReason) -> nat {
    if counts.contains_key(reason) {
        counts[reason]
    } else {
        0
    }
}

/// The frequencies after one more exit.
pub open spec fn counted(counts: Map<VmExitReason, nat>, reason: VmExitReason) -> Map<
    VmExitReason,
    nat,
> {
    counts.insert(reason, count_of(counts, reason) + 1)
}

impl VmExitCounts {
    /// Frequencies before the first exit.
    pub fn new() -> (res: Self)
        ensures
            res@ == Map::<VmExitReason, nat>::empty(),
    {
        let res: VmExitCounts = VmExitCounts { counts: [0u64; 13] };
        assert(res@ =~= Map::<VmExitReason, nat>::empty());
        res
    }

    /// Count an exit.
    pub fn record(&mut self, reason: VmExitReason)
        requires
            count_of(old(self)@, reason) < u64::MAX,
        ensures
            final(self)@ == counted(old(self)@, reason),
    {
        let position: usize = reason.to_position();
        self.counts[position] = self.counts[position] + 1;
        proof {
            assert forall|other: VmExitReason| other.position() == reason.position() implies other
                == reason by {}
            assert(self@ =~= counted(old(self)@, reason));
        }
    }

    /// How often a reason has occurred.
    pub fn get(&self, reason: VmExitReason) -> (res: u64)
        ensures
            res == count_of(self@, reason),
    {
        self.counts[reason.to_position()]
    }

    /// The reasons that have occurred, each with its frequency.
    pub fn entries(&self) -> (res: Vec<(VmExitReason, u64)>)
        ensures
            forall|i: int|
                0 <= i < res@.len() ==> self@.contains_key((#[trigger] res@[i]).0)
                    && self@[res@[i].0] == res@[i].1,
            forall|reason: VmExitReason|
                self@.contains_key(reason) ==> exists|i: int|
                    0 <= i < res@.len() && (#[trigger] res@[i]).0 == reason,
            forall|i: int, j: int|
                0 <= i < j < res@.len() ==> (#[trigger] res@[i]).0.position() < (
                #[trigger] res@[j]).0.position(),
    {
        let mut res: Vec<(VmExitReason, u64)> = Vec::new();
        let mut position: usize = 0;
        while position < REASON_COUNT
            invariant
                position <= REASON_COUNT,
                forall|i: int|
                    0 <= i < res@.len() ==> self@.contains_key((#[trigger] res@[i]).0)
                        && self@[res@[i].0] == res@[i].1 && res@[i].0.position() < position,
                forall|reason: VmExitReason|
                    self@.contains_key(reason) && reason.position() < position ==> exists|i: int|
                        0 <= i < res@.len() && (#[trigger] res@[i]).0 == reason,
                forall|i: int, j: int|
                    0 <= i < j < res@.len() ==> (#[trigger] res@[i]).0.position() < (
                    #[trigger] res@[j]).0.position(),
            decreases REASON_COUNT - position,
        {
            let reason: VmExitReason = VmExitReason::from_position(position);
            let count: u64 = self.counts[position];
            let ghost before = res@;
            if count > 0 {
                res.push((reason, count));
                proof {
                    assert(res@[before.len() as int].0 == reason);
                }
            }
            proof {
                assert forall|other: VmExitReason|
                    self@.contains_key(other) && other.position() < position + 1 implies exists|
                    i: int,
                |
                    0 <= i < res@.len() && (#[trigger] res@[i]).0 == other by {
                    if other.position() < position {
                        let i = choose|i: int|
                            0 <= i < before.len() && (#[trigger] before[i]).0 == other;
                        assert(res@[i].0 == other);
                    } else {
                        assert(other == reason);
                    }
                }
            }
            position = position + 1;
        }
        res
    }
}

/// The frequencies after a series of exits, from none on.
pub open spec fn tally(exits: Seq<VmExitReason>) -> Map<VmExitReason, nat>
    decreases exits.len(),
{
    if exits.len() == 0 {
        Map::empty()
    } else {
        counted(tally(exits.drop_last()), exits.last())
    }
}

/// The sum of all frequencies.
pub open spec fn total(counts: Map<VmExitReason, nat>) -> nat {
    count_of(counts, VmExitReason::NoReason) + count_of(counts, VmExitReason::MemoryAccess)
        + count_of(counts, VmExitReason::IoPortAccess) + count_of(
        counts,
        VmExitReason::UnrecoverableException,
    ) + count_of(counts, VmExitReason::InvalidVpRegisterValue) + count_of(
        counts,
        VmExitReason::UnsupportedFeature,
    ) + count_of(counts, VmExitReason::InterruptWindow) + count_of(counts, VmExitReason::Halt)
        + count_of(counts, VmExitReason::ApicEoi) + count_of(counts, VmExitReason::MsrAccess)
        + count_of(counts, VmExitReason::Cpuid) + count_of(counts, VmExitReason::Exception)
        + count_of(counts, VmExitReason::Canceled)
}

/// After a series of exits, each reason's frequency is the number of its exits
/// in the series, and the frequencies add up to the length of the series.
pub proof fn law_every_exit_is_counted_once(exits: Seq<VmExitReason>, reason: VmExitReason)
    ensures
        count_of(tally(exits), reason) == exits.filter(|exit: VmExitReason| exit == reason).len(),
        total(tally(exits)) == exits.len(),
    decreases exits.len(),
{
    if exits.len() > 0 {
        law_every_exit_is_counted_once(exits.drop_last(), reason);
        lemma_total_of_counted(tally(exits.drop_last()), exits.last());
        assert(exits.filter(|exit: VmExitReason| exit == reason).len() == exits.drop_last().filter(
            |exit: VmExitReason| exit == reason,
        ).len() + if exits.last() == reason { 1nat } else { 0nat }) by {
            reveal(Seq::filter);
        }
    } else {
        reveal(Seq::filter);
    }
}

/// One more exit adds one to the sum of all frequencies.
proof fn lemma_total_of_counted(counts: Map<VmExitReason, nat>, reason: VmExitReason)
    ensures
        total(counted(counts, reason)) == total(counts) + 1,
{
    let after = counted(counts, reason);
    assert forall|other: VmExitReason| #[trigger] count_of(after, other) == count_of(counts, other)
        + if other == reason { 1nat } else { 0nat } by {}
    match reason {
        VmExitReason::NoReason => {},
        VmExitReason::MemoryAccess => {},
        VmExitReason::IoPortAccess => {},
        VmExitReason::UnrecoverableException => {},
        VmExitReason::InvalidVpRegisterValue => {},
        VmExitReason::UnsupportedFeature => {},
        VmExitReason::InterruptWindow => {},
        VmExitReason::Halt => {},
        VmExitReason::ApicEoi => {},
        VmExitReason::MsrAccess => {},
        VmExitReason::Cpuid => {},
        VmExitReason::Exception => {},
        VmExitReason::Canceled => {},
    }
}

/// Reasons are told apart by their numbers.
pub proof fn law_codes_are_distinct(a: VmExitReason, b: VmExitReason)
    requires
        a.whvp_code() == b.whvp_code(),
    ensures
        a == b,
{
}

/// A number is understood if and only if it is that of a reason.
pub proof fn law_codes_are_those_of_the_reasons(code: i32)
    ensures
        VmExitReason::is_code(code) <==> exists|reason: VmExitReason| #[trigger]
            reason.whvp_code() == code,
{
    if VmExitReason::is_code(code) {
        assert(VmExitReason::NoReason.whvp_code() == code || VmExitReason::MemoryAccess.whvp_code()
            == code || VmExitReason::IoPortAccess.whvp_code() == code
            || VmExitReason::UnrecoverableException.whvp_code() == code
            || VmExitReason::InvalidVpRegisterValue.whvp_code() == code
            || VmExitReason::UnsupportedFeature.whvp_code() == code
            || VmExitReason::InterruptWindow.whvp_code() == code || VmExitReason::Halt.whvp_code()
            == code || VmExitReason::ApicEoi.whvp_code() == code
            || VmExitReason::MsrAccess.whvp_code() == code || VmExitReason::Cpuid.whvp_code()
            == code || VmExitReason::Exception.whvp_code() == code
            || VmExitReason::Canceled.whvp_code() == code);
    }
}

/// One more exit adds one to the frequency of its reason, and to no other.
pub proof fn law_one_exit_adds_one(
    counts: Map<VmExitReason, nat>,
    exit: VmExitReason,
    reason: VmExitReason,
)
    ensures
        count_of(counted(counts, exit), reason) == count_of(counts, reason) + if reason == exit {
            1nat
        } else {
            0nat
        },
        counted(counts, exit).contains_key(reason) <==> reason == exit || counts.contains_key(
            reason,
        ),
        counts.contains_key(reason) ==> count_of(counts, reason) == counts[reason],
        !counts.contains_key(reason) ==> count_of(counts, reason) == 0,
{
}

/// The numbers of the reasons are those of the hypervisor platform, and a number
/// is understood if and only if it is one of these.
pub proof fn law_codes_are_those_of_the_platform(reason: VmExitReason, code: i32)
    ensures
        reason.whvp_code() == 0 <==> reason == VmExitReason::NoReason,
        reason.whvp_code() == 1 <==> reason == VmExitReason::MemoryAccess,
        reason.whvp_code() == 2 <==> reason == VmExitReason::IoPortAccess,
        reason.whvp_code() == 4 <==> reason == VmExitReason::UnrecoverableException,
        reason.whvp_code() == 5 <==> reason == VmExitReason::InvalidVpRegisterValue,
        reason.whvp_code() == 6 <==> reason == VmExitReason::UnsupportedFeature,
        reason.whvp_code() == 7 <==> reason == VmExitReason::InterruptWindow,
        reason.whvp_code() == 8 <==> reason == VmExitReason::Halt,
        reason.whvp_code() == 9 <==> reason == VmExitReason::ApicEoi,
        reason.whvp_code() == 0x1000 <==> reason == VmExitReason::MsrAccess,
        reason.whvp_code() == 0x1001 <==> reason == VmExitReason::Cpuid,
        reason.whvp_code() == 0x1002 <==> reason == VmExitReason::Exception,
        reason.whvp_code() == 0x2001 <==> reason == VmExitReason::Canceled,
        VmExitReason::is_code(code) <==> (0 <= code <= 2 || 4 <= code <= 9 || 0x1000 <= code
            <= 0x1002 || code == 0x2001),
{
}

} // verus!
