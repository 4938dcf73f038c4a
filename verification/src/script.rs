//! The commands that a read cycle issues, told from the levels it observes.
//!
//! Where `trace` says what the observations mean, this module says what the
//! driver was asked to do on the way: which pauses, which samples, in which
//! order.

use vstd::prelude::*;
use crate::signal::Command;
use crate::signal::Level;
use crate::signal::POLL_CEILING;
use crate::signal::POLL_PAUSE_MICROS;
use crate::signal::RELEASE_HOLD_MICROS;
use crate::signal::SAMPLE_OFFSET_MICROS;
use crate::signal::START_PULSE_MILLIS;
use crate::trace::Parsed;
use crate::trace::await_level;
use crate::trace::extends;
use crate::trace::lemma_parse_bits_bounds;
use crate::trace::lemma_parse_bits_shift;
use crate::trace::lemma_parse_bits_stable;
use crate::trace::lemma_parse_bytes_bounds;
use crate::trace::lemma_parse_bytes_shift;
use crate::trace::lemma_parse_bytes_stable;
use crate::trace::lemma_scan_meaning;
use crate::trace::lemma_scan_shift;
use crate::trace::lemma_scan_stable;
use crate::trace::parse_bit;
use crate::trace::parse_bits;
use crate::trace::parse_byte;
use crate::trace::parse_bytes;

verus! {

/// The commands of `count` polls that miss: each a sample and the pause
/// after it.
pub open spec fn missed_polls(count: nat) -> Seq<Command>
    decreases count,
{
    if count == 0 {
        Seq::empty()
    } else {
        missed_polls((count - 1) as nat).push(Command::Sample).push(
            Command::DelayMicros(POLL_PAUSE_MICROS),
        )
    }
}

/// The commands of a wait that begins at `from`: the polls that miss, and
/// the poll that finds the level if one does.
pub open spec fn wait_script(obs: Seq<Level>, from: int, target: Level) -> Seq<Command> {
    match await_level(obs, from, target) {
        Parsed::Done { end, .. } => missed_polls((end - from - 1) as nat).push(Command::Sample),
        Parsed::TimedOut { end } => missed_polls((end - from) as nat),
        Parsed::Pending => Seq::empty(),
    }
}

/// The two commands between the waits of a bit: the pause of the sample
/// offset and the sample.
pub open spec fn sample_script() -> Seq<Command> {
    seq![Command::DelayMicros(SAMPLE_OFFSET_MICROS), Command::Sample]
}

/// The commands of a bit that begins at `from`: the wait for the rising
/// edge and, if that wait is done, the pause, the sample and the wait for
/// the falling edge.
pub open spec fn bit_script(obs: Seq<Level>, from: int) -> Seq<Command> {
    match await_level(obs, from, Level::High) {
        Parsed::Done { end: rise, .. } => wait_script(obs, from, Level::High) + sample_script()
            + wait_script(obs, rise + 1, Level::Low),
        _ => wait_script(obs, from, Level::High),
    }
}

/// The commands of `count` bits; after a bit that times out no more follow.
pub open spec fn bits_script(obs: Seq<Level>, from: int, count: nat) -> Seq<Command>
    decreases count,
{
    if count == 0 {
        Seq::empty()
    } else {
        match parse_bits(obs, from, (count - 1) as nat) {
            Parsed::Done { end: mid, .. } => bits_script(obs, from, (count - 1) as nat)
                + bit_script(obs, mid),
            _ => bits_script(obs, from, (count - 1) as nat),
        }
    }
}

/// The commands of a byte: those of its eight bits.
pub open spec fn byte_script(obs: Seq<Level>, from: int) -> Seq<Command> {
    bits_script(obs, from, 8)
}

/// The commands of `count` bytes; after a byte that times out no more
/// follow.
pub open spec fn bytes_script(obs: Seq<Level>, from: int, count: nat) -> Seq<Command>
    decreases count,
{
    if count == 0 {
        Seq::empty()
    } else {
        match parse_bytes(obs, from, (count - 1) as nat) {
            Parsed::Done { end: mid, .. } => bytes_script(obs, from, (count - 1) as nat)
                + byte_script(obs, mid),
            _ => bytes_script(obs, from, (count - 1) as nat),
        }
    }
}

/// The commands that open a read cycle: pull the line low, hold it for the
/// start pulse, release it, and hold off for the release time.
pub open spec fn start_script() -> Seq<Command> {
    seq![
        Command::SetLow,
        Command::DelayMillis(START_PULSE_MILLIS),
        Command::SetHigh,
        Command::DelayMicros(RELEASE_HOLD_MICROS),
    ]
}

/// The commands of the sensor's answer: the two waits of the handshake and
/// the five bytes, as far as no wait times out.
pub open spec fn answer_script(obs: Seq<Level>) -> Seq<Command> {
    match await_level(obs, 0, Level::High) {
        Parsed::Done { end: high, .. } => match await_level(obs, high, Level::Low) {
            Parsed::Done { end: low, .. } => wait_script(obs, 0, Level::High) + wait_script(
                obs,
                high,
                Level::Low,
            ) + bytes_script(obs, low, 5),
            _ => wait_script(obs, 0, Level::High) + wait_script(obs, high, Level::Low),
        },
        _ => wait_script(obs, 0, Level::High),
    }
}

/// The commands of a whole read cycle that observes `obs`.
pub open spec fn frame_script(obs: Seq<Level>) -> Seq<Command> {
    start_script() + answer_script(obs)
}

/// The pauses of a run of commands, added up, in microseconds.
pub open spec fn script_micros(script: Seq<Command>) -> nat
    decreases script.len(),
{
    if script.len() == 0 {
        0
    } else {
        script_micros(script.drop_last()) + script.last().asks_micros()
    }
}

/// A further command adds its pause to the sum.
pub proof fn lemma_script_micros_push(script: Seq<Command>, command: Command)
    ensures
        script_micros(script.push(command)) == script_micros(script) + command.asks_micros(),
{
    assert(script.push(command).drop_last() =~= script);
}

/// Polls that miss take two commands each and pause once each.
pub proof fn lemma_missed_polls_cost(count: nat)
    ensures
        missed_polls(count).len() == 2 * count,
        script_micros(missed_polls(count)) == count * POLL_PAUSE_MICROS,
    decreases count,
{
    if count > 0 {
        let fewer = (count - 1) as nat;
        let polled = missed_polls(fewer).push(Command::Sample);
        lemma_missed_polls_cost(fewer);
        let all = missed_polls(count);
        assert(all == polled.push(Command::DelayMicros(POLL_PAUSE_MICROS)));
        assert(all.drop_last() =~= polled);
        assert(all.last() == Command::DelayMicros(POLL_PAUSE_MICROS));
        assert(polled.drop_last() =~= missed_polls(fewer));
        assert(polled.last() == Command::Sample);
        assert(script_micros(polled) == script_micros(missed_polls(fewer)));
        assert(script_micros(all) == script_micros(polled) + POLL_PAUSE_MICROS);
        assert(count * POLL_PAUSE_MICROS == fewer * POLL_PAUSE_MICROS + POLL_PAUSE_MICROS)
            by (nonlinear_arith)
            requires
                count == fewer + 1,
        ;
    } else {
        assert(0 * POLL_PAUSE_MICROS == 0);
    }
}

/// Further observations do not change the commands of a wait that is
/// already decided.
pub proof fn lemma_wait_script_stable(
    long: Seq<Level>,
    short: Seq<Level>,
    from: int,
    target: Level,
)
    requires
        0 <= from,
        extends(long, short),
        !(await_level(short, from, target) is Pending),
    ensures
        wait_script(long, from, target) == wait_script(short, from, target),
{
    lemma_scan_stable(long, short, from, target, POLL_CEILING as nat);
}

/// Further observations do not change the commands of a bit that is
/// already decided.
pub proof fn lemma_bit_script_stable(long: Seq<Level>, short: Seq<Level>, from: int)
    requires
        0 <= from,
        extends(long, short),
        !(parse_bit(short, from) is Pending),
    ensures
        bit_script(long, from) == bit_script(short, from),
{
    lemma_scan_meaning(short, from, Level::High, POLL_CEILING as nat);
    lemma_scan_stable(long, short, from, Level::High, POLL_CEILING as nat);
    if let Parsed::Done { end: rise, .. } = await_level(short, from, Level::High) {
        lemma_scan_stable(long, short, rise + 1, Level::Low, POLL_CEILING as nat);
    }
}

/// Further observations do not change the commands of bits that are
/// already decided.
pub proof fn lemma_bits_script_stable(long: Seq<Level>, short: Seq<Level>, from: int, count: nat)
    requires
        0 <= from <= short.len(),
        extends(long, short),
        !(parse_bits(short, from, count) is Pending),
    ensures
        bits_script(long, from, count) == bits_script(short, from, count),
    decreases count,
{
    if count > 0 {
        let fewer = (count - 1) as nat;
        lemma_bits_script_stable(long, short, from, fewer);
        lemma_parse_bits_stable(long, short, from, fewer);
        lemma_parse_bits_bounds(short, from, fewer);
        if let Parsed::Done { end: mid, .. } = parse_bits(short, from, fewer) {
            lemma_bit_script_stable(long, short, mid);
        }
    }
}

/// Further observations do not change the commands of bytes that are
/// already decided.
pub proof fn lemma_bytes_script_stable(long: Seq<Level>, short: Seq<Level>, from: int, count: nat)
    requires
        0 <= from <= short.len(),
        extends(long, short),
        !(parse_bytes(short, from, count) is Pending),
    ensures
        bytes_script(long, from, count) == bytes_script(short, from, count),
    decreases count,
{
    if count > 0 {
        let fewer = (count - 1) as nat;
        lemma_bytes_script_stable(long, short, from, fewer);
        lemma_parse_bytes_stable(long, short, from, fewer);
        lemma_parse_bytes_bounds(short, from, fewer);
        if let Parsed::Done { end: mid, .. } = parse_bytes(short, from, fewer) {
            lemma_bits_script_stable(long, short, mid, 8);
        }
    }
}

/// The commands of a bit over the observations from `skipped` on are those
/// of the same bit over all of them, begun `skipped` positions later.
pub proof fn lemma_bit_script_shift(obs: Seq<Level>, skipped: int, from: int)
    requires
        0 <= skipped <= obs.len(),
        0 <= from,
    ensures
        bit_script(obs, skipped + from) == bit_script(obs.skip(skipped), from),
{
    let part = obs.skip(skipped);
    lemma_scan_shift(obs, skipped, from, Level::High, POLL_CEILING as nat);
    lemma_scan_meaning(part, from, Level::High, POLL_CEILING as nat);
    if let Parsed::Done { end: rise, .. } = await_level(part, from, Level::High) {
        lemma_scan_shift(obs, skipped, rise + 1, Level::Low, POLL_CEILING as nat);
    }
}

/// The commands of bits over the observations from `skipped` on are those
/// of the same bits over all of them, begun `skipped` positions later.
pub proof fn lemma_bits_script_shift(obs: Seq<Level>, skipped: int, from: int, count: nat)
    requires
        0 <= skipped <= obs.len(),
        0 <= from <= obs.len() - skipped,
    ensures
        bits_script(obs, skipped + from, count) == bits_script(obs.skip(skipped), from, count),
    decreases count,
{
    if count > 0 {
        let part = obs.skip(skipped);
        let fewer = (count - 1) as nat;
        lemma_bits_script_shift(obs, skipped, from, fewer);
        lemma_parse_bits_shift(obs, skipped, from, fewer);
        lemma_parse_bits_bounds(part, from, fewer);
        if let Parsed::Done { end: mid, .. } = parse_bits(part, from, fewer) {
            lemma_bit_script_shift(obs, skipped, mid);
        }
    }
}

/// The commands of bytes over the observations from `skipped` on are those
/// of the same bytes over all of them, begun `skipped` positions later.
pub proof fn lemma_bytes_script_shift(obs: Seq<Level>, skipped: int, from: int, count: nat)
    requires
        0 <= skipped <= obs.len(),
        0 <= from <= obs.len() - skipped,
    ensures
        bytes_script(obs, skipped + from, count) == bytes_script(obs.skip(skipped), from, count),
    decreases count,
{
    if count > 0 {
        let part = obs.skip(skipped);
        let fewer = (count - 1) as nat;
        lemma_bytes_script_shift(obs, skipped, from, fewer);
        lemma_parse_bytes_shift(obs, skipped, from, fewer);
        lemma_parse_bytes_bounds(part, from, fewer);
        if let Parsed::Done { end: mid, .. } = parse_bytes(part, from, fewer) {
            lemma_bits_script_shift(obs, skipped, mid, 8);
        }
    }
}

/// When a wait runs out in the bit after `done` good ones, the commands of
/// any larger number of bits are those of the good bits and of that bit.
pub proof fn lemma_bits_script_cut_short(obs: Seq<Level>, from: int, done: nat, count: nat)
    requires
        done < count,
        parse_bits(obs, from, done) is Done,
        parse_bit(obs, parse_bits(obs, from, done)->Done_end) is TimedOut,
    ensures
        bits_script(obs, from, count) == bits_script(obs, from, done) + bit_script(
            obs,
            parse_bits(obs, from, done)->Done_end,
        ),
    decreases count,
{
    if count - 1 > done {
        lemma_bits_script_cut_short(obs, from, done, (count - 1) as nat);
        crate::trace::lemma_parse_bits_cut_short(obs, from, done, (count - 1) as nat);
    }
}

/// When a wait runs out in the byte after `done` good ones, the commands of
/// any larger number of bytes are those of the good bytes and of that byte.
pub proof fn lemma_bytes_script_cut_short(obs: Seq<Level>, from: int, done: nat, count: nat)
    requires
        done < count,
        parse_bytes(obs, from, done) is Done,
        parse_byte(obs, parse_bytes(obs, from, done)->Done_end) is TimedOut,
    ensures
        bytes_script(obs, from, count) == bytes_script(obs, from, done) + byte_script(
            obs,
            parse_bytes(obs, from, done)->Done_end,
        ),
    decreases count,
{
    if count - 1 > done {
        lemma_bytes_script_cut_short(obs, from, done, (count - 1) as nat);
        crate::trace::lemma_parse_bytes_cut_short(obs, from, done, (count - 1) as nat);
    }
}

} // verus!
