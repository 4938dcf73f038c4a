//! The level waiter: polls the line until it is at a wanted level, or until
//! the poll ceiling is reached.

use vstd::prelude::*;
use crate::frame::DecodeError;
use crate::script::missed_polls;
use crate::script::wait_script;
use crate::signal::Command;
use crate::signal::Level;
use crate::signal::observed_after;
use crate::signal::POLL_CEILING;
use crate::signal::POLL_PAUSE_MICROS;
use crate::trace::Parsed;
use crate::trace::await_level;
use crate::trace::lemma_scan_expires;
use crate::trace::lemma_scan_reaches;
use crate::trace::stays_away;

verus! {

/// Where a wait stands.
#[derive(Clone, Copy, Debug, PartialEq, Eq, Structural)]
pub enum WaitPhase {
    /// The next command polls the line.
    Probing,
    /// The last poll missed; the next command is the pause before the retry.
    Pausing,
    /// A poll found the line at the wanted level.
    Reached,
    /// Every poll missed.
    TimedOut,
}

/// A bounded wait for one line level.
pub struct LevelWaiter {
    target: Level,
    phase: WaitPhase,
    misses: u32,
    seen: Ghost<Seq<Level>>,
    issued: Ghost<Seq<Command>>,
}

impl LevelWaiter {
    /// The level waited for.
    pub closed spec fn target(&self) -> Level {
        self.target
    }

    /// Where the wait stands.
    pub closed spec fn phase(&self) -> WaitPhase {
        self.phase
    }

    /// Number of polls so far that found the line away from the target.
    pub closed spec fn misses(&self) -> nat {
        self.misses as nat
    }

    /// The levels polled so far, oldest first.
    pub closed spec fn seen(&self) -> Seq<Level> {
        self.seen@
    }

    /// The commands carried out so far, oldest first.
    pub closed spec fn issued(&self) -> Seq<Command> {
        self.issued@
    }

    /// The wait has come to its result.
    pub open spec fn finished(&self) -> bool {
        self.phase() == WaitPhase::Reached || self.phase() == WaitPhase::TimedOut
    }

    /// The state agrees with the polls that led to it.
    pub open spec fn wf(&self) -> bool {
        &&& stays_away(self.seen(), 0, self.misses() as int, self.target())
        &&& match self.phase() {
            WaitPhase::Probing => {
                &&& self.misses() < POLL_CEILING
                &&& self.seen().len() == self.misses()
                &&& self.issued() == missed_polls(self.misses())
            },
            WaitPhase::Pausing => {
                &&& 1 <= self.misses() <= POLL_CEILING
                &&& self.seen().len() == self.misses()
                &&& self.issued() == missed_polls(self.misses()).drop_last()
            },
            WaitPhase::Reached => {
                &&& self.misses() < POLL_CEILING
                &&& self.seen().len() == self.misses() + 1
                &&& self.seen()[self.misses() as int] == self.target()
                &&& self.issued() == missed_polls(self.misses()).push(Command::Sample)
            },
            WaitPhase::TimedOut => {
                &&& self.misses() == POLL_CEILING
                &&& self.seen().len() == self.misses()
                &&& self.issued() == missed_polls(self.misses())
            },
        }
    }

    /// The command that belongs to a phase.
    pub open spec fn command_of(phase: WaitPhase) -> Option<Command> {
        match phase {
            WaitPhase::Probing => Some(Command::Sample),
            WaitPhase::Pausing => Some(Command::DelayMicros(POLL_PAUSE_MICROS)),
            WaitPhase::Reached => None,
            WaitPhase::TimedOut => None,
        }
    }

    /// The result that belongs to a phase.
    pub open spec fn result_of(phase: WaitPhase) -> Option<Result<(), DecodeError>> {
        match phase {
            WaitPhase::Probing => None,
            WaitPhase::Pausing => None,
            WaitPhase::Reached => Some(Ok(())),
            WaitPhase::TimedOut => Some(Err(DecodeError::Timeout)),
        }
    }

    /// The phase that follows once the pending command has been carried out
    /// and, if it was a sample, has read `level`.
    pub open spec fn phase_after(&self, level: Level) -> WaitPhase {
        match self.phase() {
            WaitPhase::Probing => if level == self.target() {
                WaitPhase::Reached
            } else {
                WaitPhase::Pausing
            },
            WaitPhase::Pausing => if self.misses() < POLL_CEILING {
                WaitPhase::Probing
            } else {
                WaitPhase::TimedOut
            },
            WaitPhase::Reached => WaitPhase::Reached,
            WaitPhase::TimedOut => WaitPhase::TimedOut,
        }
    }

    /// The observations once the pending command has been carried out: a
    /// poll adds `level`, a pause adds nothing.
    pub open spec fn seen_after(&self, level: Level) -> Seq<Level> {
        match Self::command_of(self.phase()) {
            Some(command) => observed_after(self.seen(), command, level),
            None => self.seen(),
        }
    }

    /// The commands carried out once the pending command has been.
    pub open spec fn issued_after(&self) -> Seq<Command> {
        match Self::command_of(self.phase()) {
            Some(command) => self.issued().push(command),
            None => self.issued(),
        }
    }

    /// `next` is this wait after its pending command has been carried out
    /// and, if it was a sample, has read `level`.
    ///
    /// A poll at the target ends the wait. A poll away from it counts as a
    /// miss and is followed by a pause, and the pause by the next poll, or
    /// by the timeout when the misses have reached the ceiling. A finished
    /// wait stays as it is.
    pub open spec fn steps_to(&self, level: Level, next: LevelWaiter) -> bool {
        &&& next.wf()
        &&& next.target() == self.target()
        &&& next.phase() == self.phase_after(level)
        &&& next.misses() == self.misses() + if self.phase() == WaitPhase::Probing && level
            != self.target() {
            1nat
        } else {
            0nat
        }
        &&& next.seen() == self.seen_after(level)
        &&& next.issued() == self.issued_after()
        &&& self.finished() ==> next == *self
        &&& !self.finished() ==> next.remaining() < self.remaining()
        &&& !self.finished() ==> next.remaining_micros() + Self::command_of(
            self.phase(),
        )->0.asks_micros() <= self.remaining_micros()
    }

    /// Upper bound on the commands still to come.
    pub open spec fn remaining(&self) -> nat {
        match self.phase() {
            WaitPhase::Probing => (2 * (POLL_CEILING - self.misses())) as nat,
            WaitPhase::Pausing => (2 * (POLL_CEILING - self.misses()) + 1) as nat,
            WaitPhase::Reached => 0,
            WaitPhase::TimedOut => 0,
        }
    }

    /// Upper bound on the pauses still to come, in microseconds.
    pub open spec fn remaining_micros(&self) -> nat {
        match self.phase() {
            WaitPhase::Probing => ((POLL_CEILING - self.misses()) * POLL_PAUSE_MICROS) as nat,
            WaitPhase::Pausing => ((POLL_CEILING - self.misses() + 1) * POLL_PAUSE_MICROS) as nat,
            WaitPhase::Reached => 0,
            WaitPhase::TimedOut => 0,
        }
    }

    /// Longest time that any wait spends in pauses, in microseconds.
    pub open spec fn longest_micros() -> nat {
        (POLL_CEILING * POLL_PAUSE_MICROS) as nat
    }

    /// Most commands that any wait issues.
    pub open spec fn longest() -> nat {
        (2 * POLL_CEILING) as nat
    }

    /// A wait for `target` that has not polled yet.
    pub fn new(target: Level) -> (w: LevelWaiter)
        ensures
            w.wf(),
            w.target() == target,
            w.phase() == WaitPhase::Probing,
            w.misses() == 0,
            w.seen() == Seq::<Level>::empty(),
            w.issued() == Seq::<Command>::empty(),
            w.remaining() == Self::longest(),
            w.remaining_micros() == Self::longest_micros(),
    {
        LevelWaiter {
            target,
            phase: WaitPhase::Probing,
            misses: 0,
            seen: Ghost(Seq::empty()),
            issued: Ghost(Seq::empty()),
        }
    }

    /// The operation the driver must carry out next; `None` once the wait
    /// has come to its result.
    pub fn command(&self) -> (c: Option<Command>)
        ensures
            c == Self::command_of(self.phase()),
    {
        match self.phase {
            WaitPhase::Probing => Some(Command::Sample),
            WaitPhase::Pausing => Some(Command::DelayMicros(POLL_PAUSE_MICROS)),
            WaitPhase::Reached => None,
            WaitPhase::TimedOut => None,
        }
    }

    /// The result: `Ok` when the level was reached, `Timeout` when every
    /// poll missed, `None` while the wait goes on.
    ///
    /// `Ok` means that the last poll was the first to read the target, and
    /// `Timeout` that exactly as many polls as the ceiling allows all read
    /// the other level.
    pub fn result(&self) -> (r: Option<Result<(), DecodeError>>)
        requires
            self.wf(),
        ensures
            r == Self::result_of(self.phase()),
            r is Some <==> self.finished(),
            r matches Some(result) ==> await_level(self.seen(), 0, self.target())
                == Parsed::settled(result, self.seen().len() as int),
            r matches Some(Err(error)) ==> error == DecodeError::Timeout && self.seen().len()
                == POLL_CEILING,
            r is Some ==> self.issued() == wait_script(self.seen(), 0, self.target()),
    {
        proof {
            if self.finished() {
                assert(self.seen().skip(0) =~= self.seen());
                self.lemma_result_is_parse(self.seen(), 0);
            }
        }
        match self.phase {
            WaitPhase::Probing => None,
            WaitPhase::Pausing => None,
            WaitPhase::Reached => Some(Ok(())),
            WaitPhase::TimedOut => Some(Err(DecodeError::Timeout)),
        }
    }

    /// Takes note that the driver has carried out `command()`. `level` is
    /// what the line read if that command was a sample; after a pause it is
    /// not looked at.
    ///
    /// A poll at the target ends the wait. A poll away from it is followed
    /// by a pause, and the pause by the next poll, or by the timeout when it
    /// was the last poll the ceiling allows.
    pub fn advance(&mut self, level: Level)
        requires
            old(self).wf(),
        ensures
            old(self).steps_to(level, *final(self)),
    {
        match self.phase {
            WaitPhase::Probing => {
                self.seen = Ghost(self.seen@.push(level));
                self.issued = Ghost(self.issued@.push(Command::Sample));
                if level == self.target {
                    self.phase = WaitPhase::Reached;
                } else {
                    self.misses = self.misses + 1;
                    self.phase = WaitPhase::Pausing;
                    assert(missed_polls(self.misses as nat).drop_last() =~= self.issued@);
                }
            },
            WaitPhase::Pausing => {
                assert(self.issued@.push(Command::DelayMicros(POLL_PAUSE_MICROS)) =~= missed_polls(
                    self.misses as nat,
                ));
                self.issued = Ghost(self.issued@.push(Command::DelayMicros(POLL_PAUSE_MICROS)));
                if self.misses < POLL_CEILING {
                    self.phase = WaitPhase::Probing;
                } else {
                    self.phase = WaitPhase::TimedOut;
                }
            },
            WaitPhase::Reached => {},
            WaitPhase::TimedOut => {},
        }
    }

    /// A finished wait is the wait that the observations spell out, and it
    /// has used all of them. `obs` may hold earlier observations: the wait's
    /// own are those from `start` on.
    ///
    /// Reached means that the last observation is the first one at the
    /// target; timed out means that exactly as many observations as the
    /// ceiling allows were all away from it.
    pub proof fn lemma_result_is_parse(&self, obs: Seq<Level>, start: int)
        requires
            self.wf(),
            self.finished(),
            0 <= start <= obs.len(),
            self.seen() == obs.skip(start),
        ensures
            self.phase() == WaitPhase::Reached ==> await_level(obs, start, self.target()) == (
            Parsed::Done { value: (), end: obs.len() as int }),
            self.phase() == WaitPhase::TimedOut ==> await_level(obs, start, self.target()) == (
            Parsed::<()>::TimedOut { end: obs.len() as int }),
            self.phase() == WaitPhase::TimedOut ==> obs.len() == start + POLL_CEILING,
            self.issued() == wait_script(obs, start, self.target()),
    {
        let own = self.seen();
        let target = self.target();
        assert forall|j: int| start <= j < start + self.misses() implies #[trigger] obs[j]
            != target by {
            assert(own[j - start] == obs[j]);
        }
        if self.phase() == WaitPhase::Reached {
            assert(own[self.misses() as int] == obs[start + self.misses()]);
            lemma_scan_reaches(obs, start, target, POLL_CEILING as nat, obs.len() as int);
        } else {
            lemma_scan_expires(obs, start, target, POLL_CEILING as nat);
        }
    }
}

} // verus!
