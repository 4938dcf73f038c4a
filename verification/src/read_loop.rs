//! The read loop: a pause, a read cycle and a report, over and over.

use vstd::prelude::*;
use crate::decoder::FrameDecoder;
use crate::decoder::FramePhase;
use crate::frame::DecodeError;
use crate::frame::ReadOutcome;
use crate::script::frame_script;
use crate::signal::Command;
use crate::signal::Level;
use crate::signal::READ_PERIOD_MILLIS;
use crate::trace::decode;

verus! {

/// Where the read loop stands.
#[derive(Clone, Copy, Debug, PartialEq, Eq, Structural)]
pub enum LoopPhase {
    /// The next command is the pause before a read cycle.
    Sleeping,
    /// A read cycle is in progress.
    Reading,
    /// A read cycle has ended; its outcome is to be reported.
    Reporting,
}

/// What the driver of the read loop must do next.
#[derive(Clone, Copy, Debug, PartialEq, Eq, Structural)]
pub enum Action {
    /// Carry out an operation on the line or the clock.
    Perform(Command),
    /// Make the outcome of the cycle that has just ended known.
    Report(ReadOutcome),
}

/// Reads the sensor at a fixed period, for ever.
pub struct ReadLoop {
    phase: LoopPhase,
    decoder: FrameDecoder,
    last: ReadOutcome,
    acted: Ghost<Seq<Action>>,
    round_start: Ghost<int>,
}

/// The actions that ask for the commands of `script`, one for one.
pub open spec fn performing(script: Seq<Command>) -> Seq<Action> {
    Seq::new(script.len(), |i: int| Action::Perform(script[i]))
}

/// The actions of one round of the loop whose read cycle observes `obs`:
/// the pause of the read period, the commands of the cycle, and the report
/// of what the cycle came to.
pub open spec fn round_script(obs: Seq<Level>) -> Seq<Action> {
    seq![Action::Perform(Command::DelayMillis(READ_PERIOD_MILLIS))] + performing(
        frame_script(obs),
    ) + seq![Action::Report(ReadOutcome::of(decode(obs)->0))]
}

impl ReadLoop {
    /// Where the loop stands.
    pub closed spec fn phase(&self) -> LoopPhase {
        self.phase
    }

    /// The decoder of the cycle in progress or just ended.
    pub closed spec fn decoder(&self) -> FrameDecoder {
        self.decoder
    }

    /// The outcome of the cycle that has just ended, while the phase is
    /// `Reporting`.
    pub closed spec fn last(&self) -> ReadOutcome {
        self.last
    }

    /// Every action carried out so far, oldest first.
    pub closed spec fn acted(&self) -> Seq<Action> {
        self.acted@
    }

    /// Number of actions carried out before the round in progress began.
    pub closed spec fn round_start(&self) -> int {
        self.round_start@
    }

    /// The actions carried out in the round in progress.
    pub open spec fn round_so_far(&self) -> Seq<Action> {
        self.acted().skip(self.round_start())
    }

    /// The actions of a round up to the command that the cycle is at.
    pub open spec fn round_up_to_now(&self) -> Seq<Action> {
        seq![Action::Perform(Command::DelayMillis(READ_PERIOD_MILLIS))] + performing(
            self.decoder().issued(),
        )
    }

    /// The state agrees with the observations that led to it.
    pub open spec fn wf(&self) -> bool {
        &&& 0 <= self.round_start() <= self.acted().len()
        &&& match self.phase() {
            LoopPhase::Sleeping => self.round_start() == self.acted().len(),
            LoopPhase::Reading => {
                &&& self.decoder().wf()
                &&& !self.decoder().finished()
                &&& self.round_so_far() == self.round_up_to_now()
            },
            LoopPhase::Reporting => {
                &&& self.decoder().wf()
                &&& self.decoder().finished()
                &&& decode(self.decoder().seen()) is Some
                &&& self.last() == ReadOutcome::of(decode(self.decoder().seen())->0)
                &&& self.round_so_far() == self.round_up_to_now()
            },
        }
    }

    /// The action that belongs to a state.
    pub open spec fn next_action(&self) -> Action {
        match self.phase() {
            LoopPhase::Sleeping => Action::Perform(Command::DelayMillis(READ_PERIOD_MILLIS)),
            LoopPhase::Reading => Action::Perform(self.decoder().next_command()->0),
            LoopPhase::Reporting => Action::Report(self.last()),
        }
    }

    /// The phase that follows once the pending action has been carried out
    /// and, if it was a sample, has read `level`.
    pub open spec fn phase_after(&self, level: Level) -> LoopPhase {
        match self.phase() {
            LoopPhase::Sleeping => LoopPhase::Reading,
            LoopPhase::Reading => if self.decoder().phase_after(level) == FramePhase::Finished {
                LoopPhase::Reporting
            } else {
                LoopPhase::Reading
            },
            LoopPhase::Reporting => LoopPhase::Sleeping,
        }
    }

    /// `next` is this loop after its pending action has been carried out
    /// and, if it was a sample, has read `level`.
    ///
    /// The pause is followed by a fresh read cycle, the cycle by the report
    /// of its outcome, and the report by the next pause, whatever the
    /// outcome was. With the report a round is complete: it was made of the
    /// pause, the commands of the cycle and the report, and of nothing else.
    pub open spec fn steps_to(&self, level: Level, next: ReadLoop) -> bool {
        &&& next.wf()
        &&& next.phase() == self.phase_after(level)
        &&& next.acted() == self.acted().push(self.next_action())
        &&& self.phase() == LoopPhase::Sleeping ==> next.decoder().phase() == FramePhase::StartLow
        &&& self.phase() == LoopPhase::Reading ==> self.decoder().steps_to(level, next.decoder())
        &&& self.phase() != LoopPhase::Reporting ==> next.round_start() == self.round_start()
        &&& self.phase() == LoopPhase::Reporting ==> {
            &&& next.round_start() == next.acted().len()
            &&& next.acted().skip(self.round_start()) == round_script(self.decoder().seen())
        }
    }

    /// A loop that is about to pause before its first read cycle.
    pub fn new() -> (l: ReadLoop)
        ensures
            l.wf(),
            l.phase() == LoopPhase::Sleeping,
            l.acted() == Seq::<Action>::empty(),
    {
        ReadLoop {
            phase: LoopPhase::Sleeping,
            decoder: FrameDecoder::new(),
            last: ReadOutcome::Failure(DecodeError::Timeout),
            acted: Ghost(Seq::empty()),
            round_start: Ghost(0),
        }
    }

    /// What the driver must do next. There always is something: the loop
    /// does not end.
    pub fn action(&self) -> (a: Action)
        requires
            self.wf(),
        ensures
            a == self.next_action(),
    {
        match self.phase {
            LoopPhase::Sleeping => Action::Perform(Command::DelayMillis(READ_PERIOD_MILLIS)),
            LoopPhase::Reading => match self.decoder.command() {
                Some(command) => Action::Perform(command),
                None => Action::Report(self.last),
            },
            LoopPhase::Reporting => Action::Report(self.last),
        }
    }

    /// Takes note that the driver has carried out `action()`. `level` is
    /// what the line read if that action was a sample; after any other
    /// action it is not looked at.
    pub fn advance(&mut self, level: Level)
        requires
            old(self).wf(),
        ensures
            old(self).steps_to(level, *final(self)),
    {
        let ghost action = self.next_action();
        let ghost before = self.acted@;
        let ghost start = self.round_start@;
        let ghost issued = self.decoder.issued();
        let ghost pause = Action::Perform(Command::DelayMillis(READ_PERIOD_MILLIS));
        self.acted = Ghost(before.push(action));
        match self.phase {
            LoopPhase::Sleeping => {
                self.decoder = FrameDecoder::new();
                self.phase = LoopPhase::Reading;
                proof {
                    assert(self.round_so_far() =~= seq![pause]);
                    assert(self.round_up_to_now() =~= seq![pause]);
                }
            },
            LoopPhase::Reading => {
                let ghost command = self.decoder.next_command()->0;
                self.decoder.advance(level);
                proof {
                    assert(performing(issued.push(command)) =~= performing(issued).push(
                        Action::Perform(command),
                    ));
                    assert(self.round_so_far() =~= before.skip(start).push(action));
                    assert(self.round_up_to_now() =~= (seq![pause] + performing(issued)).push(
                        action,
                    ));
                }
                match self.decoder.outcome() {
                    Some(result) => {
                        self.last = ReadOutcome::from_result(result);
                        self.phase = LoopPhase::Reporting;
                    },
                    None => {},
                }
            },
            LoopPhase::Reporting => {
                self.phase = LoopPhase::Sleeping;
                self.round_start = Ghost(self.acted@.len() as int);
                proof {
                    assert(self.acted@.skip(start) =~= before.skip(start).push(action));
                    assert(self.acted@.skip(start) =~= round_script(self.decoder.seen()));
                }
            },
        }
    }
}

} // verus!
