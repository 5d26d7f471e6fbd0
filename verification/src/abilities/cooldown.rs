//! The cooldown: a countdown that can be restarted, and that lets its
//! ability through only once it has run out.
use vstd::prelude::*;

verus! {

/// What a cooldown stands for: the time it takes to run out and the time
/// that has run since it was started, both in nanoseconds.
pub struct Countdown {
    pub duration: nat,
    pub elapsed: nat,
}

impl Countdown {
    /// A countdown that has already run out: its ability can be used at once.
    pub open spec fn charged(duration: nat) -> Countdown {
        Countdown { duration, elapsed: duration }
    }

    /// The countdown has run out.
    pub open spec fn finished(self) -> bool {
        self.elapsed >= self.duration
    }

    /// The countdown after `delta` more nanoseconds. One that has run out
    /// stays as it is; one that runs out on the way stops at its duration.
    pub open spec fn tick(self, delta: nat) -> Countdown {
        if self.finished() {
            self
        } else if self.elapsed + delta >= self.duration {
            Countdown { duration: self.duration, elapsed: self.duration }
        } else {
            Countdown { duration: self.duration, elapsed: self.elapsed + delta }
        }
    }

    /// The countdown started anew: no time has run.
    pub open spec fn start(self) -> Countdown {
        Countdown { duration: self.duration, elapsed: 0 }
    }

    /// The countdown after one tick for each of `deltas`, in order.
    pub open spec fn ticks(self, deltas: Seq<nat>) -> Countdown
        decreases deltas.len(),
    {
        if deltas.len() == 0 {
            self
        } else {
            self.ticks(deltas.drop_last()).tick(deltas.last())
        }
    }
}

/// The sum of `deltas`.
pub open spec fn total_time(deltas: Seq<nat>) -> nat
    decreases deltas.len(),
{
    if deltas.len() == 0 {
        0
    } else {
        total_time(deltas.drop_last()) + deltas.last()
    }
}

/// A countdown that guards an ability: started when the ability is used, and
/// run out again once its duration has passed.
#[derive(Clone, Copy, Debug)]
pub struct Cooldown {
    duration: u64,
    elapsed: u64,
}

impl View for Cooldown {
    type V = Countdown;

    closed spec fn view(&self) -> Countdown {
        Countdown { duration: self.duration as nat, elapsed: self.elapsed as nat }
    }
}

impl Cooldown {
    #[verifier::type_invariant]
    closed spec fn inv(self) -> bool {
        self.elapsed <= self.duration
    }

    /// A cooldown of `duration` nanoseconds that has already run out, so that
    /// its ability needs no warming up.
    pub fn new(duration: u64) -> (c: Cooldown)
        ensures
            c@ == Countdown::charged(duration as nat),
    {
        Cooldown { duration, elapsed: duration }
    }

    /// Runs the cooldown forward by `delta` nanoseconds.
    pub fn tick(&mut self, delta: u64)
        ensures
            final(self)@ == old(self)@.tick(delta as nat),
    {
        proof {
            use_type_invariant(&*self);
        }
        if delta >= self.duration - self.elapsed {
            self.elapsed = self.duration;
        } else {
            self.elapsed = self.elapsed + delta;
        }
    }

    /// Starts the cooldown anew.
    pub fn start(&mut self)
        ensures
            final(self)@ == old(self)@.start(),
    {
        self.elapsed = 0;
    }

    /// Whether the cooldown has run out.
    pub fn finished(&self) -> (done: bool)
        ensures
            done == self@.finished(),
    {
        self.elapsed >= self.duration
    }
}

/// Runs every cooldown that has not run out forward by `delta` nanoseconds.
pub fn tick_cooldowns(cooldowns: &mut Vec<Cooldown>, delta: u64)
    ensures
        final(cooldowns).len() == old(cooldowns).len(),
        forall|i: int|
            0 <= i < old(cooldowns).len() ==> (#[trigger] final(cooldowns)[i])@ == old(
                cooldowns,
            )[i]@.tick(delta as nat),
{
    let mut i: usize = 0;
    while i < cooldowns.len()
        invariant
            i <= cooldowns.len(),
            cooldowns.len() == old(cooldowns).len(),
            forall|k: int|
                0 <= k < i ==> (#[trigger] cooldowns[k])@ == old(cooldowns)[k]@.tick(delta as nat),
            forall|k: int| i <= k < cooldowns.len() ==> cooldowns[k] == old(cooldowns)[k],
        decreases cooldowns.len() - i,
    {
        let mut cooldown = cooldowns[i];
        if !cooldown.finished() {
            cooldown.tick(delta);
            cooldowns.set(i, cooldown);
        }
        i += 1;
    }
}

/// Starting a countdown and ticking it leaves it with the time ticked, or
/// with its duration where that is less.
pub proof fn lemma_elapsed_after_ticks(countdown: Countdown, deltas: Seq<nat>)
    ensures
        countdown.start().ticks(deltas).duration == countdown.duration,
        countdown.start().ticks(deltas).elapsed == if total_time(deltas) < countdown.duration {
            total_time(deltas)
        } else {
            countdown.duration
        },
    decreases deltas.len(),
{
    if deltas.len() > 0 {
        lemma_elapsed_after_ticks(countdown, deltas.drop_last());
    }
}

/// The round trip of a cooldown. A new one has run out. Once started it has
/// not, unless its duration is zero. After ticks it has run out exactly if
/// they add up to its duration at least. And a tick leaves one that has run
/// out as it was.
pub proof fn lemma_round_trip(duration: nat, deltas: Seq<nat>, delta: nat)
    ensures
        Countdown::charged(duration).finished(),
        Countdown::charged(duration).start().finished() <==> duration == 0,
        Countdown::charged(duration).start().ticks(deltas).finished() <==> total_time(deltas)
            >= duration,
        Countdown::charged(duration).tick(delta) == Countdown::charged(duration),
        Countdown::charged(duration).start().ticks(deltas).finished() ==> Countdown::charged(
            duration,
        ).start().ticks(deltas).tick(delta) == Countdown::charged(duration).start().ticks(deltas),
{
    lemma_elapsed_after_ticks(Countdown::charged(duration), deltas);
}

} // verus!
