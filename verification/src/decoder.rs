//! The frame decoder: the start pulse, the sensor's acknowledgement, five
//! bytes, the checksum and the conversion.

use vstd::prelude::*;
use crate::byte_reader::BitPhase;
use crate::byte_reader::ByteReader;
use crate::frame::DecodeError;
use crate::frame::RawFrame;
use crate::frame::SensorReading;
use crate::script::bytes_script;
use crate::script::byte_script;
use crate::script::frame_script;
use crate::script::lemma_bytes_script_cut_short;
use crate::script::lemma_bytes_script_stable;
use crate::script::lemma_script_micros_push;
use crate::script::lemma_wait_script_stable;
use crate::script::script_micros;
use crate::script::start_script;
use crate::script::wait_script;
use crate::signal::Command;
use crate::signal::Level;
use crate::signal::observed_after;
use crate::signal::POLL_CEILING;
use crate::signal::RELEASE_HOLD_MICROS;
use crate::signal::START_PULSE_MILLIS;
use crate::trace::await_level;
use crate::trace::decode;
use crate::trace::extends;
use crate::trace::lemma_parse_bytes_bounds;
use crate::trace::lemma_parse_bytes_cut_short;
use crate::trace::lemma_parse_bytes_stable;
use crate::trace::lemma_scan_meaning;
use crate::trace::lemma_scan_stable;
use crate::trace::parse_bytes;
use crate::waiter::LevelWaiter;
use crate::waiter::WaitPhase;

verus! {

/// Where a read cycle stands.
#[derive(Clone, Copy, Debug, PartialEq, Eq, Structural)]
pub enum FramePhase {
    /// The next command pulls the line low.
    StartLow,
    /// The next command holds the start pulse.
    StartHold,
    /// The next command releases the line.
    Release,
    /// The next command holds the released line.
    ReleaseHold,
    /// Waiting for the line to go high.
    AckHigh,
    /// Waiting for the sensor to pull the line low.
    AckLow,
    /// Reading the five bytes.
    Bytes,
    /// The cycle has come to its outcome.
    Finished,
}

/// Runs one read cycle.
pub struct FrameDecoder {
    phase: FramePhase,
    waiter: LevelWaiter,
    reader: ByteReader,
    count: u8,
    frame: RawFrame,
    outcome: Option<Result<SensorReading, DecodeError>>,
    seen: Ghost<Seq<Level>>,
    issued: Ghost<Seq<Command>>,
}

/// The first bytes of `frame` are `got`.
pub open spec fn begins_with(frame: RawFrame, got: Seq<u8>) -> bool {
    forall|i: int| 0 <= i < got.len() && i < 5 ==> frame.bytes()[i] == #[trigger] got[i]
}

impl FrameDecoder {
    /// Where the cycle stands.
    pub closed spec fn phase(&self) -> FramePhase {
        self.phase
    }

    /// The wait in progress, while the phase is `AckHigh` or `AckLow`.
    pub closed spec fn waiter(&self) -> LevelWaiter {
        self.waiter
    }

    /// The reader of the byte in progress, while the phase is `Bytes`.
    pub closed spec fn reader(&self) -> ByteReader {
        self.reader
    }

    /// Number of bytes read in full.
    pub closed spec fn byte_index(&self) -> nat {
        self.count as nat
    }

    /// The frame as far as it has been put together.
    pub closed spec fn frame(&self) -> RawFrame {
        self.frame
    }

    /// The outcome, once there is one.
    pub closed spec fn current_outcome(&self) -> Option<Result<SensorReading, DecodeError>> {
        self.outcome
    }

    /// The levels sampled so far, oldest first.
    pub closed spec fn seen(&self) -> Seq<Level> {
        self.seen@
    }

    /// The commands carried out so far, oldest first.
    pub closed spec fn issued(&self) -> Seq<Command> {
        self.issued@
    }

    /// The commands of the first wait of the handshake.
    pub open spec fn script_high(&self) -> Seq<Command> {
        wait_script(self.seen(), 0, Level::High)
    }

    /// The commands of the second wait of the handshake.
    pub open spec fn script_low(&self) -> Seq<Command> {
        wait_script(self.seen(), self.high_end(), Level::Low)
    }

    /// The commands of the bytes read in full.
    pub open spec fn script_done(&self) -> Seq<Command> {
        bytes_script(self.seen(), self.low_end(), self.byte_index())
    }

    /// The cycle has come to its outcome.
    pub open spec fn finished(&self) -> bool {
        self.phase() == FramePhase::Finished
    }

    /// A wait of the handshake is in progress.
    pub open spec fn waiting(&self) -> bool {
        self.phase() == FramePhase::AckHigh || self.phase() == FramePhase::AckLow
    }

    /// Position after the first wait of the handshake.
    pub open spec fn high_end(&self) -> int {
        await_level(self.seen(), 0, Level::High)->Done_end
    }

    /// Position after the handshake, where the first byte begins.
    pub open spec fn low_end(&self) -> int {
        await_level(self.seen(), self.high_end(), Level::Low)->Done_end
    }

    /// The bytes read in full.
    pub open spec fn bytes_done(&self) -> Seq<u8> {
        parse_bytes(self.seen(), self.low_end(), self.byte_index())->Done_value
    }

    /// Position of the first observation of the byte in progress.
    pub open spec fn byte_start(&self) -> int {
        parse_bytes(self.seen(), self.low_end(), self.byte_index())->Done_end
    }

    /// The state agrees with the observations that led to it.
    pub open spec fn wf(&self) -> bool {
        &&& self.current_outcome() is Some <==> self.finished()
        &&& script_micros(self.issued()) + self.remaining_micros() <= Self::longest_micros()
        &&& match self.phase() {
            FramePhase::StartLow => self.seen().len() == 0 && self.issued() == start_script().take(
                0,
            ),
            FramePhase::StartHold => self.seen().len() == 0 && self.issued()
                == start_script().take(1),
            FramePhase::Release => self.seen().len() == 0 && self.issued() == start_script().take(
                2,
            ),
            FramePhase::ReleaseHold => self.seen().len() == 0 && self.issued()
                == start_script().take(3),
            FramePhase::AckHigh => {
                &&& self.waiter().wf()
                &&& self.waiter().target() == Level::High
                &&& !self.waiter().finished()
                &&& self.waiter().seen() == self.seen()
                &&& self.issued() == start_script() + self.waiter().issued()
            },
            FramePhase::AckLow => {
                &&& await_level(self.seen(), 0, Level::High) is Done
                &&& 0 <= self.high_end() <= self.seen().len()
                &&& self.waiter().wf()
                &&& self.waiter().target() == Level::Low
                &&& !self.waiter().finished()
                &&& self.waiter().seen() == self.seen().skip(self.high_end())
                &&& self.issued() == start_script() + self.script_high() + self.waiter().issued()
            },
            FramePhase::Bytes => {
                &&& await_level(self.seen(), 0, Level::High) is Done
                &&& await_level(self.seen(), self.high_end(), Level::Low) is Done
                &&& 0 <= self.high_end() <= self.low_end() <= self.seen().len()
                &&& self.byte_index() < 5
                &&& parse_bytes(self.seen(), self.low_end(), self.byte_index()) is Done
                &&& self.low_end() <= self.byte_start() <= self.seen().len()
                &&& begins_with(self.frame(), self.bytes_done())
                &&& self.reader().wf()
                &&& !self.reader().finished()
                &&& self.reader().seen() == self.seen().skip(self.byte_start())
                &&& self.issued() == start_script() + self.script_high() + self.script_low()
                    + self.script_done() + self.reader().issued()
            },
            FramePhase::Finished => {
                &&& self.current_outcome() == decode(self.seen())
                &&& self.issued() == frame_script(self.seen())
            },
        }
    }

    /// The command that belongs to a state.
    pub open spec fn next_command(&self) -> Option<Command> {
        match self.phase() {
            FramePhase::StartLow => Some(Command::SetLow),
            FramePhase::StartHold => Some(Command::DelayMillis(START_PULSE_MILLIS)),
            FramePhase::Release => Some(Command::SetHigh),
            FramePhase::ReleaseHold => Some(Command::DelayMicros(RELEASE_HOLD_MICROS)),
            FramePhase::AckHigh | FramePhase::AckLow => LevelWaiter::command_of(
                self.waiter().phase(),
            ),
            FramePhase::Bytes => self.reader().next_command(),
            FramePhase::Finished => None,
        }
    }

    /// The phase that follows once the pending command has been carried out
    /// and, if it was a sample, has read `level`.
    pub open spec fn phase_after(&self, level: Level) -> FramePhase {
        match self.phase() {
            FramePhase::StartLow => FramePhase::StartHold,
            FramePhase::StartHold => FramePhase::Release,
            FramePhase::Release => FramePhase::ReleaseHold,
            FramePhase::ReleaseHold => FramePhase::AckHigh,
            FramePhase::AckHigh => match self.waiter().phase_after(level) {
                WaitPhase::Reached => FramePhase::AckLow,
                WaitPhase::TimedOut => FramePhase::Finished,
                _ => FramePhase::AckHigh,
            },
            FramePhase::AckLow => match self.waiter().phase_after(level) {
                WaitPhase::Reached => FramePhase::Bytes,
                WaitPhase::TimedOut => FramePhase::Finished,
                _ => FramePhase::AckLow,
            },
            FramePhase::Bytes => match self.reader().phase_after(level) {
                BitPhase::Done => if self.byte_index() == 4 {
                    FramePhase::Finished
                } else {
                    FramePhase::Bytes
                },
                BitPhase::Failed => FramePhase::Finished,
                _ => FramePhase::Bytes,
            },
            FramePhase::Finished => FramePhase::Finished,
        }
    }

    /// The pending command completes a byte.
    pub open spec fn completes_byte(&self, level: Level) -> bool {
        self.phase() == FramePhase::Bytes && self.reader().phase_after(level) == BitPhase::Done
    }

    /// The observations once the pending command has been carried out: a
    /// sample adds `level`, any other command adds nothing.
    pub open spec fn seen_after(&self, level: Level) -> Seq<Level> {
        match self.next_command() {
            Some(command) => observed_after(self.seen(), command, level),
            None => self.seen(),
        }
    }

    /// The commands carried out once the pending command has been.
    pub open spec fn issued_after(&self) -> Seq<Command> {
        match self.next_command() {
            Some(command) => self.issued().push(command),
            None => self.issued(),
        }
    }

    /// `next` is this decoder after its pending command has been carried out
    /// and, if it was a sample, has read `level`.
    ///
    /// The four commands of the start pulse follow one another whatever the
    /// line does. While a wait or a byte goes on, the wait or the reader
    /// takes the step. A wait that times out, in the handshake or in a byte,
    /// ends the cycle, and so does the fifth byte. A finished decoder stays
    /// as it is.
    pub open spec fn steps_to(&self, level: Level, next: FrameDecoder) -> bool {
        &&& next.wf()
        &&& next.phase() == self.phase_after(level)
        &&& next.seen() == self.seen_after(level)
        &&& next.issued() == self.issued_after()
        &&& self.waiting() && next.phase() == self.phase() ==> self.waiter().steps_to(
            level,
            next.waiter(),
        )
        &&& self.phase() == FramePhase::Bytes && next.phase() == FramePhase::Bytes ==> {
            &&& next.byte_index() == self.byte_index() + if self.completes_byte(level) {
                1nat
            } else {
                0nat
            }
            &&& !self.completes_byte(level) ==> self.reader().steps_to(level, next.reader())
        }
        &&& self.finished() ==> next == *self
        &&& !self.finished() ==> next.remaining() < self.remaining()
        &&& !self.finished() ==> next.remaining_micros() + self.next_command()->0.asks_micros()
            <= self.remaining_micros()
    }

    /// Length of the start pulse in microseconds.
    pub open spec fn start_pulse_micros() -> nat {
        (1000 * START_PULSE_MILLIS) as nat
    }

    /// Longest time that any read cycle spends in pauses, in microseconds.
    pub open spec fn longest_micros() -> nat {
        Self::start_pulse_micros() + RELEASE_HOLD_MICROS as nat + 2 * LevelWaiter::longest_micros()
            + 5 * ByteReader::longest_micros()
    }

    /// Upper bound on the pauses still to come, in microseconds.
    pub open spec fn remaining_micros(&self) -> nat {
        let waits = 2 * LevelWaiter::longest_micros();
        let bytes = 5 * ByteReader::longest_micros();
        match self.phase() {
            FramePhase::StartLow | FramePhase::StartHold => Self::start_pulse_micros()
                + RELEASE_HOLD_MICROS as nat + waits + bytes,
            FramePhase::Release | FramePhase::ReleaseHold => RELEASE_HOLD_MICROS as nat + waits
                + bytes,
            FramePhase::AckHigh => self.waiter().remaining_micros() + LevelWaiter::longest_micros()
                + bytes,
            FramePhase::AckLow => self.waiter().remaining_micros() + bytes,
            FramePhase::Bytes => self.reader().remaining_micros() + ((4 - self.byte_index())
                * ByteReader::longest_micros()) as nat,
            FramePhase::Finished => 0,
        }
    }

    /// Most commands that any read cycle takes.
    pub open spec fn longest() -> nat {
        4 + 2 * LevelWaiter::longest() + 5 * ByteReader::longest()
    }

    /// Upper bound on the commands still to come.
    pub open spec fn remaining(&self) -> nat {
        let bytes = 5 * ByteReader::longest();
        match self.phase() {
            FramePhase::StartLow => 4 + 2 * LevelWaiter::longest() + bytes,
            FramePhase::StartHold => 3 + 2 * LevelWaiter::longest() + bytes,
            FramePhase::Release => 2 + 2 * LevelWaiter::longest() + bytes,
            FramePhase::ReleaseHold => 1 + 2 * LevelWaiter::longest() + bytes,
            FramePhase::AckHigh => self.waiter().remaining() + LevelWaiter::longest() + bytes,
            FramePhase::AckLow => self.waiter().remaining() + bytes,
            FramePhase::Bytes => self.reader().remaining() + ((4 - self.byte_index())
                * ByteReader::longest()) as nat,
            FramePhase::Finished => 0,
        }
    }

    /// A decoder at the beginning of a read cycle.
    pub fn new() -> (d: FrameDecoder)
        ensures
            d.wf(),
            d.phase() == FramePhase::StartLow,
            d.seen() == Seq::<Level>::empty(),
            d.issued() == Seq::<Command>::empty(),
            d.current_outcome() is None,
            d.remaining() == Self::longest(),
            d.remaining_micros() == Self::longest_micros(),
            script_micros(d.issued()) == 0,
    {
        let d = FrameDecoder {
            phase: FramePhase::StartLow,
            waiter: LevelWaiter::new(Level::High),
            reader: ByteReader::new(),
            count: 0,
            frame: RawFrame::new(0, 0, 0, 0, 0),
            outcome: None,
            seen: Ghost(Seq::empty()),
            issued: Ghost(Seq::empty()),
        };
        assert(d.issued() =~= start_script().take(0));
        d
    }

    /// The operation the driver must carry out next; `None` once the cycle
    /// has come to its outcome.
    pub fn command(&self) -> (c: Option<Command>)
        requires
            self.wf(),
        ensures
            c == self.next_command(),
            c is None <==> self.finished(),
    {
        match self.phase {
            FramePhase::StartLow => Some(Command::SetLow),
            FramePhase::StartHold => Some(Command::DelayMillis(START_PULSE_MILLIS)),
            FramePhase::Release => Some(Command::SetHigh),
            FramePhase::ReleaseHold => Some(Command::DelayMicros(RELEASE_HOLD_MICROS)),
            FramePhase::AckHigh | FramePhase::AckLow => self.waiter.command(),
            FramePhase::Bytes => self.reader.command(),
            FramePhase::Finished => None,
        }
    }

    /// The outcome of the cycle, `None` while it goes on.
    ///
    /// It is what the observed levels decode to: the reading of an intact
    /// frame, `ChecksumMismatch` for a frame whose checksum byte is not the
    /// sum of its data bytes, and `Timeout` when a wait ran out.
    pub fn outcome(&self) -> (o: Option<Result<SensorReading, DecodeError>>)
        requires
            self.wf(),
        ensures
            o == self.current_outcome(),
            o is Some <==> self.finished(),
            self.finished() ==> o == decode(self.seen()),
            self.finished() ==> self.issued() == frame_script(self.seen()),
    {
        self.outcome
    }

    /// Takes note that the driver has carried out `command()`. `level` is
    /// what the line read if that command was a sample; after any other
    /// command it is not looked at.
    pub fn advance(&mut self, level: Level)
        requires
            old(self).wf(),
        ensures
            old(self).steps_to(level, *final(self)),
    {
        let ghost before = self.issued@;
        proof {
            if !self.finished() {
                lemma_script_micros_push(before, self.next_command()->0);
            }
        }
        match self.phase {
            FramePhase::StartLow => {
                self.issued = Ghost(before.push(Command::SetLow));
                self.phase = FramePhase::StartHold;
                assert(self.issued@ =~= start_script().take(1));
            },
            FramePhase::StartHold => {
                self.issued = Ghost(before.push(Command::DelayMillis(START_PULSE_MILLIS)));
                self.phase = FramePhase::Release;
                assert(self.issued@ =~= start_script().take(2));
            },
            FramePhase::Release => {
                self.issued = Ghost(before.push(Command::SetHigh));
                self.phase = FramePhase::ReleaseHold;
                assert(self.issued@ =~= start_script().take(3));
            },
            FramePhase::ReleaseHold => {
                self.issued = Ghost(before.push(Command::DelayMicros(RELEASE_HOLD_MICROS)));
                self.waiter = LevelWaiter::new(Level::High);
                self.phase = FramePhase::AckHigh;
                proof {
                    assert(self.waiter.seen() =~= self.seen@);
                    assert(self.issued@ =~= start_script() + self.waiter.issued());
                }
            },
            FramePhase::AckHigh => {
                self.step_first_wait(level);
            },
            FramePhase::AckLow => {
                self.step_second_wait(level);
            },
            FramePhase::Bytes => {
                self.step_bytes(level);
            },
            FramePhase::Finished => {},
        }
    }

    /// The step of a decoder that waits for the line to go high.
    fn step_first_wait(&mut self, level: Level)
        requires
            old(self).wf(),
            old(self).phase() == FramePhase::AckHigh,
        ensures
            old(self).steps_to(level, *final(self)),
    {
        proof {
            lemma_script_micros_push(self.issued@, self.next_command()->0);
        }
        let ghost before = self.seen@;
        let ghost command = self.next_command();
        let ghost waited = self.waiter.issued();
        self.waiter.advance(level);
        self.seen = Ghost(observed_after(before, command->0, level));
        self.issued = Ghost(self.issued@.push(command->0));
        proof {
            let now = self.seen@;
            assert(now.skip(0) =~= now);
            assert(self.issued@ =~= start_script() + waited.push(command->0));
            if self.waiter.finished() {
                self.waiter.lemma_result_is_parse(now, 0);
            }
        }
        match self.waiter.result() {
            Some(Ok(_)) => {
                self.waiter = LevelWaiter::new(Level::Low);
                self.phase = FramePhase::AckLow;
                proof {
                    let now = self.seen@;
                    assert(now.skip(now.len() as int) =~= Seq::<Level>::empty());
                    assert(self.issued@ =~= start_script() + self.script_high()
                        + self.waiter.issued());
                }
            },
            Some(Err(_)) => {
                self.outcome = Some(Err(DecodeError::Timeout));
                self.phase = FramePhase::Finished;
            },
            None => {},
        }
    }

    /// The step of a decoder that waits for the sensor to pull the line low.
    fn step_second_wait(&mut self, level: Level)
        requires
            old(self).wf(),
            old(self).phase() == FramePhase::AckLow,
        ensures
            old(self).steps_to(level, *final(self)),
    {
        proof {
            lemma_script_micros_push(self.issued@, self.next_command()->0);
        }
        let ghost before = self.seen@;
        let ghost command = self.next_command();
        let ghost high = self.high_end();
        let ghost first = self.script_high();
        let ghost waited = self.waiter.issued();
        self.waiter.advance(level);
        self.seen = Ghost(observed_after(before, command->0, level));
        self.issued = Ghost(self.issued@.push(command->0));
        proof {
            let now = self.seen@;
            assert(extends(now, before));
            lemma_scan_stable(now, before, 0, Level::High, POLL_CEILING as nat);
            lemma_wait_script_stable(now, before, 0, Level::High);
            assert(self.waiter.seen() =~= now.skip(high));
            assert(self.issued@ =~= start_script() + first + waited.push(command->0));
            if self.waiter.finished() {
                self.waiter.lemma_result_is_parse(now, high);
                if self.waiter.phase() == WaitPhase::TimedOut {
                    assert(self.issued@ =~= frame_script(now));
                }
            }
        }
        match self.waiter.result() {
            Some(Ok(_)) => {
                self.reader = ByteReader::new();
                self.count = 0;
                self.phase = FramePhase::Bytes;
                proof {
                    let now = self.seen@;
                    assert(now.skip(now.len() as int) =~= Seq::<Level>::empty());
                    assert(self.issued@ =~= start_script() + self.script_high() + self.script_low()
                        + self.script_done() + self.reader.issued());
                }
            },
            Some(Err(_)) => {
                self.outcome = Some(Err(DecodeError::Timeout));
                self.phase = FramePhase::Finished;
            },
            None => {},
        }
    }

    /// The step of a decoder that reads a byte.
    fn step_bytes(&mut self, level: Level)
        requires
            old(self).wf(),
            old(self).phase() == FramePhase::Bytes,
        ensures
            old(self).steps_to(level, *final(self)),
    {
        proof {
            lemma_script_micros_push(self.issued@, self.next_command()->0);
        }
        let ghost before = self.seen@;
        let ghost command = self.next_command();
        let ghost high = self.high_end();
        let ghost low = self.low_end();
        let ghost start = self.byte_start();
        let ghost opening = start_script() + self.script_high() + self.script_low();
        let ghost done = self.script_done();
        let ghost read = self.reader.issued();
        self.reader.advance(level);
        self.seen = Ghost(observed_after(before, command->0, level));
        self.issued = Ghost(self.issued@.push(command->0));
        proof {
            let now = self.seen@;
            assert(extends(now, before));
            lemma_scan_meaning(before, 0, Level::High, POLL_CEILING as nat);
            lemma_scan_stable(now, before, 0, Level::High, POLL_CEILING as nat);
            lemma_scan_stable(now, before, high, Level::Low, POLL_CEILING as nat);
            lemma_parse_bytes_stable(now, before, low, self.count as nat);
            lemma_wait_script_stable(now, before, 0, Level::High);
            lemma_wait_script_stable(now, before, high, Level::Low);
            lemma_bytes_script_stable(now, before, low, self.count as nat);
            assert(self.reader.seen() =~= now.skip(start));
            assert(self.issued@ =~= opening + done + read.push(command->0));
            if self.reader.finished() {
                self.reader.lemma_result_is_parse(now, start);
                let byte = byte_script(now, start);
                assert(bytes_script(now, low, (self.count + 1) as nat) == done + byte);
                assert(self.issued@ =~= opening + (done + byte));
                if self.reader.phase() == BitPhase::Failed {
                    lemma_bytes_script_cut_short(now, low, self.count as nat, 5);
                    assert(self.issued@ =~= frame_script(now));
                }
            }
        }
        match self.reader.result() {
            Some(Ok(byte)) => {
                proof {
                    lemma_parse_bytes_bounds(self.seen@, low, self.count as nat);
                }
                self.store(byte);
                if self.count == 5 {
                    self.outcome = Some(self.frame.decode());
                    self.phase = FramePhase::Finished;
                    assert(self.issued@ =~= frame_script(self.seen@));
                } else {
                    self.reader = ByteReader::new();
                    proof {
                        let now = self.seen@;
                        assert(self.issued@ =~= opening + self.script_done() + self.reader.issued());
                        let left = 4 - self.count;
                        let each = ByteReader::longest() as int;
                        let each_micros = ByteReader::longest_micros() as int;
                        assert(now.skip(now.len() as int) =~= Seq::<Level>::empty());
                        assert((left + 1) * each == left * each + each && left * each >= 0)
                            by (nonlinear_arith)
                            requires
                                left >= 0,
                                each >= 0,
                        ;
                        assert((left + 1) * each_micros == left * each_micros + each_micros && left
                            * each_micros >= 0) by (nonlinear_arith)
                            requires
                                left >= 0,
                                each_micros >= 0,
                        ;
                    }
                }
            },
            Some(Err(_)) => {
                proof {
                    lemma_parse_bytes_cut_short(self.seen@, low, self.count as nat, 5);
                }
                self.outcome = Some(Err(DecodeError::Timeout));
                self.phase = FramePhase::Finished;
            },
            None => {},
        }
    }

    /// Puts a byte that has just been read into its place in the frame.
    fn store(&mut self, byte: u8)
        requires
            old(self).count < 5,
            begins_with(old(self).frame, old(self).bytes_done()),
            old(self).bytes_done().len() == old(self).count,
        ensures
            final(self).count == old(self).count + 1,
            begins_with(final(self).frame, old(self).bytes_done().push(byte)),
            final(self).count == 5 ==> final(self).frame == RawFrame::of(
                old(self).bytes_done().push(byte),
            ),
            final(self).phase == old(self).phase,
            final(self).waiter == old(self).waiter,
            final(self).reader == old(self).reader,
            final(self).outcome == old(self).outcome,
            final(self).seen == old(self).seen,
            final(self).issued == old(self).issued,
    {
        let ghost got = self.bytes_done();
        match self.count {
            0 => {
                self.frame.humidity_high = byte;
            },
            1 => {
                self.frame.humidity_low = byte;
            },
            2 => {
                self.frame.temperature_high = byte;
            },
            3 => {
                self.frame.temperature_low = byte;
            },
            _ => {
                self.frame.checksum = byte;
            },
        }
        self.count = self.count + 1;
        proof {
            let more = got.push(byte);
            assert forall|i: int| 0 <= i < more.len() && i < 5 implies self.frame.bytes()[i]
                == #[trigger] more[i] by {
                if i < got.len() {
                    assert(old(self).frame.bytes()[i] == got[i]);
                }
            }
            if self.count == 5 {
                assert(self.frame.bytes()[0] == more[0]);
                assert(self.frame.bytes()[1] == more[1]);
                assert(self.frame.bytes()[2] == more[2]);
                assert(self.frame.bytes()[3] == more[3]);
                assert(self.frame.bytes()[4] == more[4]);
            }
        }
    }
}

} // verus!
