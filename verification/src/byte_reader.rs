//! The byte reader: eight bits, each taken by one sample at a fixed distance
//! after the rising edge.

use vstd::prelude::*;
use crate::frame::DecodeError;
use crate::script::bit_script;
use crate::script::bits_script;
use crate::script::byte_script;
use crate::script::lemma_bits_script_cut_short;
use crate::script::lemma_bits_script_shift;
use crate::script::lemma_bits_script_stable;
use crate::script::lemma_wait_script_stable;
use crate::script::sample_script;
use crate::script::wait_script;
use crate::signal::Command;
use crate::signal::Level;
use crate::signal::observed_after;
use crate::signal::POLL_CEILING;
use crate::signal::SAMPLE_OFFSET_MICROS;
use crate::trace::Parsed;
use crate::trace::await_level;
use crate::trace::extends;
use crate::trace::lemma_parse_bits_bounds;
use crate::trace::lemma_parse_bits_cut_short;
use crate::trace::lemma_parse_bits_stable;
use crate::trace::lemma_parse_byte_shift;
use crate::trace::lemma_scan_stable;
use crate::trace::placed;
use crate::trace::parse_bit;
use crate::trace::parse_bits;
use crate::trace::parse_byte;
use crate::waiter::LevelWaiter;
use crate::waiter::WaitPhase;

verus! {

/// Where the reading of a byte stands within the bit in progress.
#[derive(Clone, Copy, Debug, PartialEq, Eq, Structural)]
pub enum BitPhase {
    /// Waiting for the line to go high.
    Rising,
    /// The line went high; the next command is the pause before the sample.
    Settling,
    /// The next command is the sample that decides the bit.
    Sampling,
    /// The bit is taken; waiting for the line to go low again.
    Falling,
    /// All eight bits are read.
    Done,
    /// A wait ran out.
    Failed,
}

/// Reads one byte off the line, most significant bit first.
pub struct ByteReader {
    phase: BitPhase,
    bit: u8,
    value: u8,
    waiter: LevelWaiter,
    seen: Ghost<Seq<Level>>,
    issued: Ghost<Seq<Command>>,
}

impl ByteReader {
    /// Where the reading stands within the bit in progress.
    pub closed spec fn phase(&self) -> BitPhase {
        self.phase
    }

    /// Number of bits read in full.
    pub closed spec fn bit_index(&self) -> nat {
        self.bit as nat
    }

    /// The byte as far as it has been put together.
    pub closed spec fn value(&self) -> u8 {
        self.value
    }

    /// The wait in progress, while the phase is `Rising` or `Falling`.
    pub closed spec fn waiter(&self) -> LevelWaiter {
        self.waiter
    }

    /// The levels sampled so far, oldest first.
    pub closed spec fn seen(&self) -> Seq<Level> {
        self.seen@
    }

    /// The commands carried out so far, oldest first.
    pub closed spec fn issued(&self) -> Seq<Command> {
        self.issued@
    }

    /// The commands of the bits read in full.
    pub open spec fn script_done(&self) -> Seq<Command> {
        bits_script(self.seen(), 0, self.bit_index())
    }

    /// The commands of the wait for the rising edge of the bit in progress.
    pub open spec fn script_rise(&self) -> Seq<Command> {
        wait_script(self.seen(), self.bit_start(), Level::High)
    }

    /// A wait is in progress.
    pub open spec fn waiting(&self) -> bool {
        self.phase() == BitPhase::Rising || self.phase() == BitPhase::Falling
    }

    /// The reading has come to its result.
    pub open spec fn finished(&self) -> bool {
        self.phase() == BitPhase::Done || self.phase() == BitPhase::Failed
    }

    /// The bits read in full.
    pub open spec fn bits_done(&self) -> Seq<bool> {
        parse_bits(self.seen(), 0, self.bit_index())->Done_value
    }

    /// Position of the first observation of the bit in progress.
    pub open spec fn bit_start(&self) -> int {
        parse_bits(self.seen(), 0, self.bit_index())->Done_end
    }

    /// Position of the sample of the bit in progress.
    pub open spec fn sample_at(&self) -> int {
        await_level(self.seen(), self.bit_start(), Level::High)->Done_end
    }

    /// The state agrees with the observations that led to it.
    pub open spec fn wf(&self) -> bool {
        &&& self.bit_index() <= 8
        &&& parse_bits(self.seen(), 0, self.bit_index()) is Done
        &&& 0 <= self.bit_start() <= self.seen().len()
        &&& match self.phase() {
            BitPhase::Rising => {
                &&& self.bit_index() < 8
                &&& self.value() == placed(self.bits_done())
                &&& self.waiter().wf()
                &&& self.waiter().target() == Level::High
                &&& !self.waiter().finished()
                &&& self.waiter().seen() == self.seen().skip(self.bit_start())
                &&& self.issued() == self.script_done() + self.waiter().issued()
            },
            BitPhase::Settling | BitPhase::Sampling => {
                &&& self.bit_index() < 8
                &&& self.value() == placed(self.bits_done())
                &&& await_level(self.seen(), self.bit_start(), Level::High) == (Parsed::Done {
                    value: (),
                    end: self.seen().len() as int,
                })
                &&& self.issued() == if self.phase() == BitPhase::Settling {
                    self.script_done() + self.script_rise()
                } else {
                    self.script_done() + self.script_rise().push(
                        Command::DelayMicros(SAMPLE_OFFSET_MICROS),
                    )
                }
            },
            BitPhase::Falling => {
                &&& self.bit_index() < 8
                &&& await_level(self.seen(), self.bit_start(), Level::High) is Done
                &&& self.bit_start() < self.sample_at() < self.seen().len()
                &&& self.value() == placed(
                    self.bits_done().push(self.seen()[self.sample_at()] == Level::High),
                )
                &&& self.waiter().wf()
                &&& self.waiter().target() == Level::Low
                &&& !self.waiter().finished()
                &&& self.waiter().seen() == self.seen().skip(self.sample_at() + 1)
                &&& self.issued() == self.script_done() + self.script_rise() + sample_script()
                    + self.waiter().issued()
            },
            BitPhase::Done => {
                &&& self.bit_index() == 8
                &&& self.bit_start() == self.seen().len()
                &&& self.value() == placed(self.bits_done())
                &&& self.issued() == self.script_done()
            },
            BitPhase::Failed => {
                &&& self.bit_index() < 8
                &&& parse_bit(self.seen(), self.bit_start()) == (Parsed::<bool>::TimedOut {
                    end: self.seen().len() as int,
                })
                &&& self.issued() == self.script_done() + bit_script(self.seen(), self.bit_start())
            },
        }
    }

    /// The command that belongs to a state.
    pub open spec fn next_command(&self) -> Option<Command> {
        match self.phase() {
            BitPhase::Rising | BitPhase::Falling => LevelWaiter::command_of(self.waiter().phase()),
            BitPhase::Settling => Some(Command::DelayMicros(SAMPLE_OFFSET_MICROS)),
            BitPhase::Sampling => Some(Command::Sample),
            BitPhase::Done | BitPhase::Failed => None,
        }
    }

    /// The result that belongs to a state.
    pub open spec fn current_result(&self) -> Option<Result<u8, DecodeError>> {
        match self.phase() {
            BitPhase::Done => Some(Ok(self.value())),
            BitPhase::Failed => Some(Err(DecodeError::Timeout)),
            _ => None,
        }
    }

    /// The phase that follows once the pending command has been carried out
    /// and, if it was a sample, has read `level`.
    pub open spec fn phase_after(&self, level: Level) -> BitPhase {
        match self.phase() {
            BitPhase::Rising => match self.waiter().phase_after(level) {
                WaitPhase::Reached => BitPhase::Settling,
                WaitPhase::TimedOut => BitPhase::Failed,
                _ => BitPhase::Rising,
            },
            BitPhase::Settling => BitPhase::Sampling,
            BitPhase::Sampling => BitPhase::Falling,
            BitPhase::Falling => match self.waiter().phase_after(level) {
                WaitPhase::Reached => if self.bit_index() == 7 {
                    BitPhase::Done
                } else {
                    BitPhase::Rising
                },
                WaitPhase::TimedOut => BitPhase::Failed,
                _ => BitPhase::Falling,
            },
            BitPhase::Done => BitPhase::Done,
            BitPhase::Failed => BitPhase::Failed,
        }
    }

    /// The pending command completes a bit.
    pub open spec fn completes_bit(&self, level: Level) -> bool {
        self.phase() == BitPhase::Falling && self.waiter().phase_after(level) == WaitPhase::Reached
    }

    /// The observations once the pending command has been carried out: a
    /// sample adds `level`, any other command adds nothing.
    pub open spec fn seen_after(&self, level: Level) -> Seq<Level> {
        match self.next_command() {
            Some(command) => observed_after(self.seen(), command, level),
            None => self.seen(),
        }
    }

    /// The commands carried out once the pending command has been.
    pub open spec fn issued_after(&self) -> Seq<Command> {
        match self.next_command() {
            Some(command) => self.issued().push(command),
            None => self.issued(),
        }
    }

    /// `next` is this reader after its pending command has been carried out
    /// and, if it was a sample, has read `level`.
    ///
    /// While a wait goes on, the wait takes the step. When the wait for the
    /// rising edge ends, the pause and the sample follow; when the wait for
    /// the falling edge ends, the bit is complete and the next one begins,
    /// or the byte is done. A wait that times out fails the reading. A
    /// finished reader stays as it is.
    pub open spec fn steps_to(&self, level: Level, next: ByteReader) -> bool {
        &&& next.wf()
        &&& next.phase() == self.phase_after(level)
        &&& next.bit_index() == self.bit_index() + if self.completes_bit(level) {
            1nat
        } else {
            0nat
        }
        &&& next.seen() == self.seen_after(level)
        &&& next.issued() == self.issued_after()
        &&& self.waiting() && next.phase() == self.phase() ==> self.waiter().steps_to(
            level,
            next.waiter(),
        )
        &&& self.finished() ==> next == *self
        &&& !self.finished() ==> next.remaining() < self.remaining()
        &&& !self.finished() ==> next.remaining_micros() + self.next_command()->0.asks_micros()
            <= self.remaining_micros()
    }

    /// Longest time that one bit spends in pauses, in microseconds.
    pub open spec fn longest_bit_micros() -> nat {
        2 * LevelWaiter::longest_micros() + SAMPLE_OFFSET_MICROS as nat
    }

    /// Longest time that any byte spends in pauses, in microseconds.
    pub open spec fn longest_micros() -> nat {
        8 * Self::longest_bit_micros()
    }

    /// Upper bound on the pauses still to come, in microseconds.
    pub open spec fn remaining_micros(&self) -> nat {
        let later = ((7 - self.bit_index()) * Self::longest_bit_micros()) as nat;
        match self.phase() {
            BitPhase::Rising => self.waiter().remaining_micros() + SAMPLE_OFFSET_MICROS as nat
                + LevelWaiter::longest_micros() + later,
            BitPhase::Settling => SAMPLE_OFFSET_MICROS as nat + LevelWaiter::longest_micros()
                + later,
            BitPhase::Sampling => LevelWaiter::longest_micros() + later,
            BitPhase::Falling => self.waiter().remaining_micros() + later,
            BitPhase::Done => 0,
            BitPhase::Failed => 0,
        }
    }

    /// Most commands that one bit takes: two waits, the pause and the
    /// sample.
    pub open spec fn longest_bit() -> nat {
        2 * LevelWaiter::longest() + 2
    }

    /// Most commands that any byte takes.
    pub open spec fn longest() -> nat {
        8 * Self::longest_bit()
    }

    /// Upper bound on the commands still to come.
    pub open spec fn remaining(&self) -> nat {
        let later = ((7 - self.bit_index()) * Self::longest_bit()) as nat;
        match self.phase() {
            BitPhase::Rising => self.waiter().remaining() + 2 + LevelWaiter::longest() + later,
            BitPhase::Settling => 2 + LevelWaiter::longest() + later,
            BitPhase::Sampling => 1 + LevelWaiter::longest() + later,
            BitPhase::Falling => self.waiter().remaining() + later,
            BitPhase::Done => 0,
            BitPhase::Failed => 0,
        }
    }

    /// A reader that has not seen anything of its byte yet.
    pub fn new() -> (r: ByteReader)
        ensures
            r.wf(),
            r.phase() == BitPhase::Rising,
            r.bit_index() == 0,
            r.seen() == Seq::<Level>::empty(),
            r.issued() == Seq::<Command>::empty(),
            r.waiter().phase() == WaitPhase::Probing,
            r.remaining() == Self::longest(),
            r.remaining_micros() == Self::longest_micros(),
    {
        let r = ByteReader {
            phase: BitPhase::Rising,
            bit: 0,
            value: 0,
            waiter: LevelWaiter::new(Level::High),
            seen: Ghost(Seq::empty()),
            issued: Ghost(Seq::empty()),
        };
        assert(r.seen().skip(0) =~= r.waiter().seen());
        assert(r.issued() =~= r.script_done() + r.waiter().issued());
        r
    }

    /// The operation the driver must carry out next; `None` once the byte
    /// is read or a wait has run out.
    pub fn command(&self) -> (c: Option<Command>)
        requires
            self.wf(),
        ensures
            c == self.next_command(),
            c is None <==> self.finished(),
    {
        match self.phase {
            BitPhase::Rising | BitPhase::Falling => self.waiter.command(),
            BitPhase::Settling => Some(Command::DelayMicros(SAMPLE_OFFSET_MICROS)),
            BitPhase::Sampling => Some(Command::Sample),
            BitPhase::Done | BitPhase::Failed => None,
        }
    }

    /// The result: the byte once all eight bits are read, `Timeout` when a
    /// wait ran out, `None` while the reading goes on.
    ///
    /// The byte is the one that the observed levels spell out, the first
    /// bit in bit 7 and the last in bit 0.
    pub fn result(&self) -> (r: Option<Result<u8, DecodeError>>)
        requires
            self.wf(),
        ensures
            r == self.current_result(),
            r is Some <==> self.finished(),
            r matches Some(result) ==> parse_byte(self.seen(), 0) == Parsed::settled(
                result,
                self.seen().len() as int,
            ),
            r matches Some(Err(error)) ==> error == DecodeError::Timeout,
            r is Some ==> self.issued() == byte_script(self.seen(), 0),
    {
        proof {
            if self.finished() {
                assert(self.seen().skip(0) =~= self.seen());
                self.lemma_result_is_parse(self.seen(), 0);
            }
        }
        match self.phase {
            BitPhase::Done => Some(Ok(self.value)),
            BitPhase::Failed => Some(Err(DecodeError::Timeout)),
            _ => None,
        }
    }

    /// Takes note that the driver has carried out `command()`. `level` is
    /// what the line read if that command was a sample; after any other
    /// command it is not looked at.
    ///
    /// Each bit is a wait for the line to go high, a pause of the sample
    /// offset, the sample, and a wait for the line to go low. A high sample
    /// sets the bit: the first bit of the byte is bit 7, the last bit 0. A
    /// wait that runs out ends the reading.
    pub fn advance(&mut self, level: Level)
        requires
            old(self).wf(),
        ensures
            old(self).steps_to(level, *final(self)),
    {
        match self.phase {
            BitPhase::Rising => {
                self.step_rising(level);
            },
            BitPhase::Settling => {
                assert(self.issued@.push(Command::DelayMicros(SAMPLE_OFFSET_MICROS))
                    =~= self.script_done() + self.script_rise().push(
                    Command::DelayMicros(SAMPLE_OFFSET_MICROS),
                ));
                self.issued = Ghost(self.issued@.push(Command::DelayMicros(SAMPLE_OFFSET_MICROS)));
                self.phase = BitPhase::Sampling;
            },
            BitPhase::Sampling => {
                self.step_sampling(level);
            },
            BitPhase::Falling => {
                self.step_falling(level);
            },
            BitPhase::Done => {},
            BitPhase::Failed => {},
        }
    }

    /// The step of a reader that waits for the rising edge.
    fn step_rising(&mut self, level: Level)
        requires
            old(self).wf(),
            old(self).phase() == BitPhase::Rising,
        ensures
            old(self).steps_to(level, *final(self)),
    {
        let ghost before = self.seen@;
        let ghost start = self.bit_start();
        let ghost command = self.next_command();
        let ghost done = self.script_done();
        let ghost waited = self.waiter.issued();
        self.waiter.advance(level);
        self.seen = Ghost(observed_after(before, command->0, level));
        self.issued = Ghost(self.issued@.push(command->0));
        proof {
            let now = self.seen@;
            assert(extends(now, before));
            lemma_parse_bits_stable(now, before, 0, self.bit as nat);
            lemma_bits_script_stable(now, before, 0, self.bit as nat);
            assert(self.waiter.seen() =~= now.skip(start));
            assert(self.issued@ =~= done + waited.push(command->0));
            if self.waiter.finished() {
                self.waiter.lemma_result_is_parse(now, start);
            }
        }
        match self.waiter.result() {
            Some(Ok(_)) => {
                self.phase = BitPhase::Settling;
            },
            Some(Err(_)) => {
                self.phase = BitPhase::Failed;
            },
            None => {},
        }
    }

    /// The step of a reader that takes the sample of a bit.
    fn step_sampling(&mut self, level: Level)
        requires
            old(self).wf(),
            old(self).phase() == BitPhase::Sampling,
        ensures
            old(self).steps_to(level, *final(self)),
    {
        let ghost before = self.seen@;
        let ghost start = self.bit_start();
        let ghost bits = self.bits_done();
        let ghost done = self.script_done();
        let ghost rise = self.script_rise();
        self.seen = Ghost(before.push(level));
        self.issued = Ghost(self.issued@.push(Command::Sample));
        if level == Level::High {
            self.value = self.value | (1u8 << (7 - self.bit));
        }
        self.waiter = LevelWaiter::new(Level::Low);
        self.phase = BitPhase::Falling;
        proof {
            let now = self.seen@;
            let longer = bits.push(level == Level::High);
            assert(extends(now, before));
            lemma_parse_bits_stable(now, before, 0, self.bit as nat);
            lemma_parse_bits_bounds(before, 0, self.bit as nat);
            lemma_scan_stable(now, before, start, Level::High, POLL_CEILING as nat);
            assert(now.skip(before.len() as int + 1) =~= Seq::<Level>::empty());
            assert(longer.drop_last() =~= bits);
            assert(longer.last() == (level == Level::High));
            lemma_bits_script_stable(now, before, 0, self.bit as nat);
            lemma_wait_script_stable(now, before, start, Level::High);
            assert(self.issued@ =~= done + rise + sample_script() + self.waiter.issued());
        }
    }

    /// The step of a reader that waits for the falling edge.
    fn step_falling(&mut self, level: Level)
        requires
            old(self).wf(),
            old(self).phase() == BitPhase::Falling,
        ensures
            old(self).steps_to(level, *final(self)),
    {
        let ghost before = self.seen@;
        let ghost start = self.bit_start();
        let ghost sample = self.sample_at();
        let ghost command = self.next_command();
        let ghost done = self.script_done();
        let ghost rise = self.script_rise();
        let ghost waited = self.waiter.issued();
        self.waiter.advance(level);
        self.seen = Ghost(observed_after(before, command->0, level));
        self.issued = Ghost(self.issued@.push(command->0));
        proof {
            let now = self.seen@;
            assert(extends(now, before));
            lemma_parse_bits_stable(now, before, 0, self.bit as nat);
            lemma_scan_stable(now, before, start, Level::High, POLL_CEILING as nat);
            lemma_bits_script_stable(now, before, 0, self.bit as nat);
            lemma_wait_script_stable(now, before, start, Level::High);
            assert(now[sample] == before[sample]);
            assert(self.waiter.seen() =~= now.skip(sample + 1));
            assert(self.issued@ =~= done + rise + sample_script() + waited.push(command->0));
            if self.waiter.finished() {
                self.waiter.lemma_result_is_parse(now, sample + 1);
                let bit = bit_script(now, start);
                assert(bit == rise + sample_script() + self.waiter.issued());
                assert(self.issued@ =~= done + bit);
                assert(bits_script(now, 0, (self.bit + 1) as nat) == done + bit);
            }
        }
        match self.waiter.result() {
            Some(Ok(_)) => {
                self.bit = self.bit + 1;
                if self.bit == 8 {
                    self.phase = BitPhase::Done;
                } else {
                    self.waiter = LevelWaiter::new(Level::High);
                    self.phase = BitPhase::Rising;
                    proof {
                        let now = self.seen@;
                        let left = 7 - self.bit;
                        let each = Self::longest_bit() as int;
                        let each_micros = Self::longest_bit_micros() as int;
                        assert(now.skip(now.len() as int) =~= Seq::<Level>::empty());
                        assert(self.issued@ =~= self.script_done() + self.waiter.issued());
                        assert((left + 1) * each == left * each + each && left * each >= 0)
                            by (nonlinear_arith)
                            requires
                                left >= 0,
                                each >= 0,
                        ;
                        assert((left + 1) * each_micros == left * each_micros + each_micros && left
                            * each_micros >= 0) by (nonlinear_arith)
                            requires
                                left >= 0,
                                each_micros >= 0,
                        ;
                    }
                }
            },
            Some(Err(_)) => {
                self.phase = BitPhase::Failed;
            },
            None => {},
        }
    }

    /// A finished reading is the byte that the observations spell out, and
    /// it has used all of them. `obs` may hold earlier observations: the
    /// reader's own are those from `start` on.
    pub proof fn lemma_result_is_parse(&self, obs: Seq<Level>, start: int)
        requires
            self.wf(),
            self.finished(),
            0 <= start <= obs.len(),
            self.seen() == obs.skip(start),
        ensures
            self.phase() == BitPhase::Done ==> parse_byte(obs, start) == (Parsed::Done {
                value: self.value(),
                end: obs.len() as int,
            }),
            self.phase() == BitPhase::Failed ==> parse_byte(obs, start) == (Parsed::<
                u8,
            >::TimedOut { end: obs.len() as int }),
            self.issued() == byte_script(obs, start),
    {
        lemma_parse_byte_shift(obs, start, 0);
        lemma_bits_script_shift(obs, start, 0, 8);
        if self.phase() == BitPhase::Failed {
            lemma_parse_bits_cut_short(self.seen(), 0, self.bit_index(), 8);
            lemma_bits_script_cut_short(self.seen(), 0, self.bit_index(), 8);
        }
    }
}

} // verus!
