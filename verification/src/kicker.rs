//! The kicker, which makes a running guest exit about a thousand times a
//! second, so that devices can be stepped and interrupts delivered.

use vstd::prelude::*;

verus! {

/// What the kicker waits for. It polls two things: whether the guest is
/// running, and the processor's time stamp counter.
#[derive(Clone, Copy, PartialEq, Eq, Structural, Debug)]
pub enum Kicker {
    /// For the guest to run
    Idle,
    /// For the counter to reach the deadline, or the guest to stop
    Armed { deadline: u64 },
    /// For one more look at the guest, which may have stopped by now
    Due,
}

/// What the kicker waits for after a poll, in which the guest was running or
/// not, at the time `now`. A kick comes `advance` cycles after the guest has
/// been found running.
pub open spec fn polled(kicker: Kicker, active: bool, now: u64, advance: u64) -> Kicker {
    match kicker {
        Kicker::Idle => if active {
            Kicker::Armed { deadline: (now + advance) as u64 }
        } else {
            Kicker::Idle
        },
        Kicker::Armed { deadline } => if active && now < deadline {
            kicker
        } else {
            Kicker::Due
        },
        Kicker::Due => Kicker::Idle,
    }
}

/// Whether the guest is kicked at a poll.
pub open spec fn kicks(kicker: Kicker, active: bool) -> bool {
    kicker is Due && active
}

impl Kicker {
    /// Takes a poll into account. Returns whether the guest is to be kicked.
    pub fn poll(&mut self, active: bool, now: u64, advance: u64) -> (kick: bool)
        requires
            *old(self) is Idle && active ==> now + advance <= u64::MAX,
        ensures
            *final(self) == polled(*old(self), active, now, advance),
            kick == kicks(*old(self), active),
    {
        match *self {
            Kicker::Idle => {
                if active {
                    *self = Kicker::Armed { deadline: now + advance };
                }
                false
            },
            Kicker::Armed { deadline } => {
                if !(active && now < deadline) {
                    *self = Kicker::Due;
                }
                false
            },
            Kicker::Due => {
                // The guest may have stopped by this point, so skip the kick
                *self = Kicker::Idle;
                active
            },
        }
    }
}

/// One look at the guest and at the counter.
pub struct Poll {
    pub active: bool,
    pub now: u64,
}

/// What the kicker waits for after a series of polls, from the start on.
pub open spec fn after_polls(polls: Seq<Poll>, advance: u64) -> Kicker
    decreases polls.len(),
{
    if polls.len() == 0 {
        Kicker::Idle
    } else {
        polled(
            after_polls(polls.drop_last(), advance),
            polls.last().active,
            polls.last().now,
            advance,
        )
    }
}

/// Whether the guest is kicked at the poll `polls[i]`.
pub open spec fn kicked_at(polls: Seq<Poll>, advance: u64, i: int) -> bool {
    kicks(after_polls(polls.take(i), advance), polls[i].active)
}

/// Whether the counter does not go back in a series of polls, and a deadline
/// can be set at each of them.
pub open spec fn clock_is_sound(polls: Seq<Poll>, advance: u64) -> bool {
    &&& forall|i: int, j: int|
        0 <= i <= j < polls.len() ==> (#[trigger] polls[i]).now <= (#[trigger] polls[j]).now
    &&& forall|i: int| 0 <= i < polls.len() ==> (#[trigger] polls[i]).now + advance <= u64::MAX
}

/// Whether the guest was running at the polls from `polls[i]` to `polls[j]`.
pub open spec fn runs_throughout(polls: Seq<Poll>, i: int, j: int) -> bool {
    forall|k: int| i <= k <= j ==> (#[trigger] polls[k]).active
}

/// A running guest is not kicked too often: two kicks, the guest running at
/// every poll in between, are at least `advance` cycles apart.
pub proof fn law_kicks_are_apart(polls: Seq<Poll>, advance: u64, i: int, j: int)
    requires
        0 <= i < j < polls.len(),
        clock_is_sound(polls, advance),
        runs_throughout(polls, i, j),
        kicked_at(polls, advance, i),
        kicked_at(polls, advance, j),
    ensures
        polls[i].now + advance <= polls[j].now,
{
    lemma_after_kick(polls, advance, i, j);
    assert(polls[j - 1].now <= polls[j].now);
}

/// A running guest is kicked in time. When the kicker has found it running at
/// `polls[i]`, and `polls[m]` is the first poll at which `advance` cycles have
/// passed since, the kick comes with the next look at the guest, and none came
/// before.
pub proof fn law_kick_comes_when_it_is_due(polls: Seq<Poll>, advance: u64, i: int, m: int)
    requires
        0 <= i < m < polls.len() - 1,
        clock_is_sound(polls, advance),
        runs_throughout(polls, i, m + 1),
        after_polls(polls.take(i), advance) is Idle,
        forall|k: int| i < k < m ==> (#[trigger] polls[k]).now < polls[i].now + advance,
        polls[i].now + advance <= polls[m].now,
    ensures
        kicked_at(polls, advance, m + 1),
        forall|k: int| i <= k <= m ==> !#[trigger] kicked_at(polls, advance, k),
{
    assert forall|k: int| i <= k <= m implies !#[trigger] kicked_at(polls, advance, k) by {
        if k > i {
            lemma_armed_until_due(polls, advance, i, m, k);
        }
    }
    lemma_armed_until_due(polls, advance, i, m, m);
    lemma_one_more_poll(polls, advance, m);
}

/// The kicker after one more poll of a series.
proof fn lemma_one_more_poll(polls: Seq<Poll>, advance: u64, i: int)
    requires
        0 <= i < polls.len(),
    ensures
        after_polls(polls.take(i + 1), advance) == polled(
            after_polls(polls.take(i), advance),
            polls[i].active,
            polls[i].now,
            advance,
        ),
{
    assert(polls.take(i + 1).drop_last() =~= polls.take(i));
}

/// What the kicker waits for while the guest runs on after a kick at
/// `polls[i]`: a kick is due only `advance` cycles after it.
proof fn lemma_after_kick(polls: Seq<Poll>, advance: u64, i: int, m: int)
    requires
        0 <= i < m < polls.len(),
        clock_is_sound(polls, advance),
        runs_throughout(polls, i, m),
        kicked_at(polls, advance, i),
    ensures
        after_polls(polls.take(m), advance) matches Kicker::Armed { deadline } ==> polls[i].now
            + advance <= deadline,
        after_polls(polls.take(m), advance) is Due ==> polls[i].now + advance <= polls[m - 1].now,
    decreases m,
{
    lemma_one_more_poll(polls, advance, m - 1);
    if m > i + 1 {
        lemma_after_kick(polls, advance, i, m - 1);
        assert(polls[i].now <= polls[m - 1].now);
        assert(polls[m - 1].active);
        assert(polls[m - 1].now + advance <= u64::MAX);
    }
}

/// Until `advance` cycles have passed since the kicker found a running guest,
/// it waits for that.
proof fn lemma_armed_until_due(polls: Seq<Poll>, advance: u64, i: int, m: int, k: int)
    requires
        0 <= i < k <= m < polls.len(),
        clock_is_sound(polls, advance),
        runs_throughout(polls, i, m),
        after_polls(polls.take(i), advance) is Idle,
        forall|l: int| i < l < m ==> (#[trigger] polls[l]).now < polls[i].now + advance,
    ensures
        after_polls(polls.take(k), advance) == (Kicker::Armed {
            deadline: (polls[i].now + advance) as u64,
        }),
    decreases k,
{
    lemma_one_more_poll(polls, advance, k - 1);
    assert(polls[k - 1].active);
    assert(polls[i].now + advance <= u64::MAX);
    if k > i + 1 {
        lemma_armed_until_due(polls, advance, i, m, k - 1);
    }
}

/// What a poll does. A guest that is not running is never kicked, nor is one that
/// has just been found running, or whose deadline is still awaited. From when it
/// is found running, the deadline is `advance` cycles away. The wait ends with the
/// deadline, or as soon as the guest is found stopped; after one more look, which
/// kicks a guest that is running, the kicker waits for the guest to run again.
pub proof fn law_polls(kicker: Kicker, active: bool, now: u64, advance: u64)
    requires
        kicker is Idle && active ==> now + advance <= u64::MAX,
    ensures
        !active ==> !kicks(kicker, active),
        kicker is Idle ==> !kicks(kicker, active),
        kicker is Armed ==> !kicks(kicker, active),
        kicker is Due && active ==> kicks(kicker, active),
        kicker is Idle && active ==> (polled(kicker, active, now, advance) matches Kicker::Armed {
            deadline,
        } && deadline - now == advance),
        kicker is Idle && !active ==> polled(kicker, active, now, advance) is Idle,
        kicker is Armed && active && now < kicker->deadline ==> polled(kicker, active, now, advance)
            == kicker,
        kicker is Armed && (!active || kicker->deadline <= now) ==> polled(
            kicker,
            active,
            now,
            advance,
        ) is Due,
        kicker is Due ==> polled(kicker, active, now, advance) is Idle,
{
}

} // verus!
