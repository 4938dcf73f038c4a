//! A line that plays back levels written down beforehand, and the three
//! readers run against it.

use vstd::prelude::*;
use crate::byte_reader::ByteReader;
use crate::decoder::FrameDecoder;
use crate::frame::DecodeError;
use crate::frame::SensorReading;
use crate::script::byte_script;
use crate::script::frame_script;
use crate::script::wait_script;
use crate::signal::Command;
use crate::signal::Level;
use crate::signal::POLL_CEILING;
use crate::trace::Parsed;
use crate::trace::await_level;
use crate::trace::decode;
use crate::trace::parse_byte;
use crate::waiter::LevelWaiter;

verus! {

/// A line whose levels are fixed beforehand.
///
/// Every sample takes the next level of the list. When the list is used up
/// the line rests at its idle level for good. Driving the line and pausing
/// have no effect on the levels; the line only keeps a record of every
/// command carried out on it.
pub struct SimulatedLine {
    levels: Vec<Level>,
    cursor: usize,
    idle: Level,
    performed: Vec<Command>,
    served: Ghost<Seq<Level>>,
}

impl SimulatedLine {
    /// The listed levels that no sample has taken yet.
    pub closed spec fn pending(&self) -> Seq<Level> {
        self.levels@.skip(self.cursor as int)
    }

    /// The level at which the line rests once the list is used up.
    pub closed spec fn idle(&self) -> Level {
        self.idle
    }

    /// Every level handed out so far, oldest first.
    pub closed spec fn served(&self) -> Seq<Level> {
        self.served@
    }

    /// Every command carried out on the line so far, oldest first.
    pub closed spec fn performed(&self) -> Seq<Command> {
        self.performed@
    }

    /// The commands carried out on the line since it was `earlier`.
    pub open spec fn performed_since(&self, earlier: SimulatedLine) -> Seq<Command> {
        self.performed().skip(earlier.performed().len() as int)
    }

    /// The line has not taken more levels than are listed.
    pub closed spec fn wf(&self) -> bool {
        self.cursor <= self.levels.len()
    }

    /// The level that the sample after the next `i` samples will read.
    pub open spec fn level_at(&self, i: int) -> Level {
        if 0 <= i < self.pending().len() {
            self.pending()[i]
        } else {
            self.idle()
        }
    }

    /// The levels that the next `count` samples will read.
    pub open spec fn upcoming(&self, count: nat) -> Seq<Level> {
        Seq::new(count, |i: int| self.level_at(i))
    }

    /// `next` is this line after `count` samples.
    pub open spec fn after(&self, count: nat, next: SimulatedLine) -> bool {
        &&& next.wf()
        &&& next.idle() == self.idle()
        &&& next.served() == self.served() + self.upcoming(count)
        &&& next.pending() == self.pending().skip(
            if count <= self.pending().len() {
                count as int
            } else {
                self.pending().len() as int
            },
        )
    }

    /// The levels that the line has handed out since it was `earlier`.
    pub open spec fn served_since(&self, earlier: SimulatedLine) -> Seq<Level> {
        self.served().skip(earlier.served().len() as int)
    }

    /// `next` is this line after some number of samples.
    pub open spec fn leads_to(&self, next: SimulatedLine) -> bool {
        &&& self.served().len() <= next.served().len()
        &&& self.after((next.served().len() - self.served().len()) as nat, next)
    }

    /// Samples add up.
    pub proof fn lemma_after_after(
        &self,
        first: nat,
        between: SimulatedLine,
        second: nat,
        last: SimulatedLine,
    )
        requires
            self.after(first, between),
            between.after(second, last),
        ensures
            self.after(first + second, last),
            self.upcoming(first + second) == self.upcoming(first) + between.upcoming(second),
    {
        let joined = self.upcoming(first) + between.upcoming(second);
        assert forall|i: int| 0 <= i < first + second implies self.upcoming(first + second)[i]
            == joined[i] by {
            if i >= first {
                assert(joined[i] == between.level_at(i - first));
            }
        }
        assert(self.upcoming(first + second) =~= joined);
        assert(last.served() =~= self.served() + self.upcoming(first + second));
        assert(last.pending() =~= self.pending().skip(
            if first + second <= self.pending().len() {
                (first + second) as int
            } else {
                self.pending().len() as int
            },
        ));
    }

    /// What has been handed out between two states of a line is what was
    /// upcoming in the earlier one.
    pub proof fn lemma_served_since(&self, count: nat, next: SimulatedLine)
        requires
            self.after(count, next),
        ensures
            self.leads_to(next),
            next.served_since(*self) == self.upcoming(count),
    {
        assert(next.served_since(*self) =~= self.upcoming(count));
    }

    /// A line that will read `levels` one after the other and `idle` from
    /// then on.
    pub fn new(levels: Vec<Level>, idle: Level) -> (line: SimulatedLine)
        ensures
            line.wf(),
            line.pending() == levels@,
            line.idle() == idle,
            line.served() == Seq::<Level>::empty(),
            line.performed() == Seq::<Command>::empty(),
    {
        let line = SimulatedLine {
            levels,
            cursor: 0,
            idle,
            performed: Vec::new(),
            served: Ghost(Seq::empty()),
        };
        assert(line.levels@.skip(0) =~= line.levels@);
        line
    }

    /// Number of listed levels that no sample has taken yet.
    pub fn remaining(&self) -> (n: usize)
        requires
            self.wf(),
        ensures
            n == self.pending().len(),
    {
        self.levels.len() - self.cursor
    }

    /// The record of the commands carried out on the line, oldest first.
    pub fn commands(&self) -> (log: &Vec<Command>)
        ensures
            log@ == self.performed(),
    {
        &self.performed
    }

    /// Reads the line: the next listed level, or the idle level when the
    /// list is used up. The sample goes on record.
    pub fn sample(&mut self) -> (level: Level)
        requires
            old(self).wf(),
        ensures
            level == old(self).level_at(0),
            old(self).after(1, *final(self)),
            final(self).performed() == old(self).performed().push(Command::Sample),
    {
        self.performed.push(Command::Sample);
        let level = if self.cursor < self.levels.len() {
            let level = self.levels[self.cursor];
            self.cursor = self.cursor + 1;
            level
        } else {
            self.idle
        };
        self.served = Ghost(self.served@.push(level));
        proof {
            assert(old(self).upcoming(1) =~= seq![level]);
            assert(self.served() =~= old(self).served() + old(self).upcoming(1));
            assert(self.pending() =~= old(self).pending().skip(
                if 1 <= old(self).pending().len() {
                    1
                } else {
                    0
                },
            ));
        }
        level
    }

    /// Carries out a command and puts it on record: a sample reads the line,
    /// any other command leaves the levels as they are and returns the idle
    /// level.
    pub fn perform(&mut self, command: Command) -> (level: Level)
        requires
            old(self).wf(),
        ensures
            final(self).performed() == old(self).performed().push(command),
            command == Command::Sample ==> level == old(self).level_at(0) && old(self).after(
                1,
                *final(self),
            ),
            command != Command::Sample ==> level == old(self).idle() && old(self).after(
                0,
                *final(self),
            ),
    {
        match command {
            Command::Sample => self.sample(),
            _ => {
                self.performed.push(command);
                proof {
                    assert(self.served() =~= old(self).served() + old(self).upcoming(0));
                    assert(self.pending() =~= old(self).pending().skip(0));
                }
                self.idle
            },
        }
    }
}

/// Waits on a simulated line for `target`.
///
/// Polls the line up to the poll ceiling. Returns `Ok` with the first poll
/// that reads `target`, and `Timeout` when as many polls as the ceiling
/// allows have all read the other level; the line has then handed out
/// exactly that many levels.
pub fn wait_for_level(line: &mut SimulatedLine, target: Level) -> (r: Result<(), DecodeError>)
    requires
        old(line).wf(),
    ensures
        old(line).leads_to(*final(line)),
        await_level(final(line).served_since(*old(line)), 0, target) == Parsed::settled(
            r,
            final(line).served_since(*old(line)).len() as int,
        ),
        r is Err ==> r == Err::<(), DecodeError>(DecodeError::Timeout) && final(line).served_since(
            *old(line),
        ).len() == POLL_CEILING,
        final(line).performed() == old(line).performed() + wait_script(
            final(line).served_since(*old(line)),
            0,
            target,
        ),
{
    let mut waiter = LevelWaiter::new(target);
    proof {
        assert(old(line).upcoming(0) =~= waiter.seen());
        assert(line.served() =~= old(line).served() + old(line).upcoming(0));
        assert(line.pending() =~= old(line).pending().skip(0));
        assert(line.performed() =~= old(line).performed() + waiter.issued());
    }
    loop
        invariant
            waiter.wf(),
            line.performed() == old(line).performed() + waiter.issued(),
            waiter.target() == target,
            old(line).after(waiter.seen().len(), *line),
            waiter.seen() == old(line).upcoming(waiter.seen().len()),
        decreases waiter.remaining(),
    {
        match waiter.command() {
            Some(command) => {
                let ghost here = *line;
                let ghost count = waiter.seen().len();
                let ghost issued = waiter.issued();
                let level = line.perform(command);
                waiter.advance(level);
                proof {
                    assert(line.performed() =~= old(line).performed() + issued.push(command));
                    if command == Command::Sample {
                        old(line).lemma_after_after(count, here, 1, *line);
                        assert(here.upcoming(1) =~= seq![level]);
                        assert(waiter.seen() =~= old(line).upcoming(count + 1));
                    } else {
                        old(line).lemma_after_after(count, here, 0, *line);
                    }
                }
            },
            None => {
                proof {
                    old(line).lemma_served_since(waiter.seen().len(), *line);
                    let served = line.served_since(*old(line));
                    assert(served.skip(0) =~= served);
                    waiter.lemma_result_is_parse(served, 0);
                }
                return waiter.result().unwrap();
            },
        }
    }
}

/// Reads one byte off a simulated line.
///
/// Reads eight bits, most significant first. Each bit is a wait for the
/// line to go high, one sample, which is the bit, and a wait for the line to
/// go low. Returns the byte, or `Timeout` as soon as one of the sixteen
/// waits runs out.
pub fn read_byte(line: &mut SimulatedLine) -> (r: Result<u8, DecodeError>)
    requires
        old(line).wf(),
    ensures
        old(line).leads_to(*final(line)),
        parse_byte(final(line).served_since(*old(line)), 0) == Parsed::settled(
            r,
            final(line).served_since(*old(line)).len() as int,
        ),
        r is Err ==> r == Err::<u8, DecodeError>(DecodeError::Timeout),
        final(line).performed() == old(line).performed() + byte_script(
            final(line).served_since(*old(line)),
            0,
        ),
{
    let mut reader = ByteReader::new();
    proof {
        assert(old(line).upcoming(0) =~= reader.seen());
        assert(line.served() =~= old(line).served() + old(line).upcoming(0));
        assert(line.pending() =~= old(line).pending().skip(0));
        assert(line.performed() =~= old(line).performed() + reader.issued());
    }
    loop
        invariant
            reader.wf(),
            line.performed() == old(line).performed() + reader.issued(),
            old(line).after(reader.seen().len(), *line),
            reader.seen() == old(line).upcoming(reader.seen().len()),
        decreases reader.remaining(),
    {
        match reader.command() {
            Some(command) => {
                let ghost here = *line;
                let ghost count = reader.seen().len();
                let ghost issued = reader.issued();
                let level = line.perform(command);
                reader.advance(level);
                proof {
                    assert(line.performed() =~= old(line).performed() + issued.push(command));
                    if command == Command::Sample {
                        old(line).lemma_after_after(count, here, 1, *line);
                        assert(here.upcoming(1) =~= seq![level]);
                        assert(reader.seen() =~= old(line).upcoming(count + 1));
                    } else {
                        old(line).lemma_after_after(count, here, 0, *line);
                    }
                }
            },
            None => {
                proof {
                    old(line).lemma_served_since(reader.seen().len(), *line);
                    let served = line.served_since(*old(line));
                    assert(served.skip(0) =~= served);
                    reader.lemma_result_is_parse(served, 0);
                }
                return reader.result().unwrap();
            },
        }
    }
}

/// Runs one read cycle against a simulated line.
///
/// Sends the start pulse, waits for the sensor to let the line go high and
/// to pull it low, reads five bytes, checks the fifth against the sum of the
/// other four and converts them. The result is what the levels that the
/// line handed out decode to: the reading, `ChecksumMismatch`, or `Timeout`
/// when one of the waits ran out.
pub fn read_sensor(line: &mut SimulatedLine) -> (r: Result<SensorReading, DecodeError>)
    requires
        old(line).wf(),
    ensures
        old(line).leads_to(*final(line)),
        decode(final(line).served_since(*old(line))) == Some(r),
        final(line).performed() == old(line).performed() + frame_script(
            final(line).served_since(*old(line)),
        ),
{
    let mut decoder = FrameDecoder::new();
    proof {
        assert(old(line).upcoming(0) =~= decoder.seen());
        assert(line.served() =~= old(line).served() + old(line).upcoming(0));
        assert(line.pending() =~= old(line).pending().skip(0));
        assert(line.performed() =~= old(line).performed() + decoder.issued());
    }
    loop
        invariant
            decoder.wf(),
            line.performed() == old(line).performed() + decoder.issued(),
            old(line).after(decoder.seen().len(), *line),
            decoder.seen() == old(line).upcoming(decoder.seen().len()),
        decreases decoder.remaining(),
    {
        match decoder.command() {
            Some(command) => {
                let ghost here = *line;
                let ghost count = decoder.seen().len();
                let ghost issued = decoder.issued();
                let level = line.perform(command);
                decoder.advance(level);
                proof {
                    assert(line.performed() =~= old(line).performed() + issued.push(command));
                    if command == Command::Sample {
                        old(line).lemma_after_after(count, here, 1, *line);
                        assert(here.upcoming(1) =~= seq![level]);
                        assert(decoder.seen() =~= old(line).upcoming(count + 1));
                    } else {
                        old(line).lemma_after_after(count, here, 0, *line);
                    }
                }
            },
            None => {
                proof {
                    old(line).lemma_served_since(decoder.seen().len(), *line);
                }
                return decoder.outcome().unwrap();
            },
        }
    }
}

} // verus!
