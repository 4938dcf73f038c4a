//! Line levels, timing constants and the operations a decoder asks of its
//! driver.

use vstd::prelude::*;

verus! {

/// Number of polls one wait may spend before it gives up.
pub const POLL_CEILING: u32 = 10_000;

/// Pause after a poll that did not find the awaited level, in microseconds.
pub const POLL_PAUSE_MICROS: u32 = 1;

/// Distance between a rising edge and the sample that decides the bit, in
/// microseconds. A zero bit holds the line high for less than this, a one
/// bit for longer.
pub const SAMPLE_OFFSET_MICROS: u32 = 30;

/// Longest time for which the sensor holds the line high to send a zero, in
/// microseconds.
pub const ZERO_BIT_HIGH_MICROS: u32 = 28;

/// Time for which the sensor holds the line high to send a one, in
/// microseconds.
pub const ONE_BIT_HIGH_MICROS: u32 = 70;

/// Length of the low pulse with which the host requests a reading, in
/// milliseconds.
pub const START_PULSE_MILLIS: u32 = 18;

/// Time the host keeps the line released before it listens for the sensor,
/// in microseconds.
pub const RELEASE_HOLD_MICROS: u32 = 48;

/// Pause before every read cycle, in milliseconds.
pub const READ_PERIOD_MILLIS: u32 = 2000;

/// The electrical level of the data line.
#[derive(Clone, Copy, Debug, PartialEq, Eq, Structural)]
pub enum Level {
    Low,
    High,
}

/// One operation for the driver to carry out on the line or the clock.
#[derive(Clone, Copy, Debug, PartialEq, Eq, Structural)]
pub enum Command {
    /// Pull the line low.
    SetLow,
    /// Release the line so that it floats high.
    SetHigh,
    /// Block for this many milliseconds.
    DelayMillis(u32),
    /// Block for this many microseconds.
    DelayMicros(u32),
    /// Read the line's level now and hand it to the machine.
    Sample,
}

impl Command {
    /// The time that the command takes by its own wording, in microseconds:
    /// the length of a pause, and nothing for any other command.
    pub open spec fn asks_micros(self) -> nat {
        match self {
            Command::DelayMillis(millis) => (1000 * millis) as nat,
            Command::DelayMicros(micros) => micros as nat,
            _ => 0,
        }
    }

    /// The length of the pause that the command asks for, in microseconds;
    /// zero for a command that is no pause.
    pub fn micros(&self) -> (m: u64)
        ensures
            m == self.asks_micros(),
    {
        match self {
            Command::DelayMillis(millis) => 1000u64 * (*millis as u64),
            Command::DelayMicros(micros) => *micros as u64,
            _ => 0,
        }
    }

    /// Whether carrying out the command yields a level.
    pub open spec fn observes(self) -> bool {
        self == Command::Sample
    }
}

/// The observations after a command has been carried out: one level longer
/// when the command was a sample, unchanged otherwise.
pub open spec fn observed_after(seen: Seq<Level>, command: Command, level: Level) -> Seq<Level> {
    if command.observes() {
        seen.push(level)
    } else {
        seen
    }
}

} // verus!
