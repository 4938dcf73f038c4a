//! What holds of the decoder as a whole.

use vstd::prelude::*;
use crate::byte_reader::ByteReader;
use crate::decoder::FrameDecoder;
use crate::decoder::FramePhase;
use crate::frame::DecodeError;
use crate::frame::RawFrame;
use crate::frame::ReadOutcome;
use crate::frame::SensorReading;
use crate::read_loop::Action;
use crate::read_loop::LoopPhase;
use crate::read_loop::ReadLoop;
use crate::read_loop::round_script;
use crate::script::frame_script;
use crate::script::lemma_missed_polls_cost;
use crate::script::missed_polls;
use crate::script::script_micros;
use crate::script::start_script;
use crate::script::wait_script;
use crate::signal::Command;
use crate::signal::Level;
use crate::signal::ONE_BIT_HIGH_MICROS;
use crate::signal::POLL_CEILING;
use crate::signal::SAMPLE_OFFSET_MICROS;
use crate::signal::ZERO_BIT_HIGH_MICROS;
use crate::signal::READ_PERIOD_MILLIS;
use crate::simulated::SimulatedLine;
use crate::trace::Parsed;
use crate::trace::await_level;
use crate::trace::decode;
use crate::trace::extends;
use crate::trace::lemma_parse_frame_stable;
use crate::trace::lemma_parse_frame_timeout;
use crate::trace::lemma_scan_expires;
use crate::trace::lemma_scan_meaning;
use crate::trace::lemma_scan_reaches;
use crate::trace::parse_frame;
use crate::trace::stays_away;
use crate::waiter::LevelWaiter;
use crate::waveform::frame_levels;
use crate::waveform::lemma_frame_levels_script;
use crate::waveform::prompt_frame_script;
use crate::waveform::lemma_frame_round_trip;

verus! {

/// Every frame whose checksum byte is the sum of its data bytes modulo 256
/// decodes to its reading: a read cycle over a line that shows the levels of
/// the frame returns humidity and temperature, each the 16-bit number made
/// of its high and its low byte, in tenths.
pub proof fn law_intact_frame_gives_its_reading(frame: RawFrame)
    requires
        frame.checksum == (frame.humidity_high + frame.humidity_low + frame.temperature_high
            + frame.temperature_low) % 256,
    ensures
        decode(frame_levels(frame)) == Some(
            Ok::<SensorReading, DecodeError>(
                SensorReading {
                    humidity_tenths: (frame.humidity_high * 256 + frame.humidity_low) as u16,
                    temperature_tenths: (frame.temperature_high * 256
                        + frame.temperature_low) as u16,
                },
            ),
        ),
{
    lemma_frame_round_trip(frame);
}

/// Every frame whose checksum byte differs from the sum of its data bytes
/// modulo 256 fails with `ChecksumMismatch`, and no reading comes out.
pub proof fn law_corrupt_frame_is_rejected(frame: RawFrame)
    requires
        frame.checksum != (frame.humidity_high + frame.humidity_low + frame.temperature_high
            + frame.temperature_low) % 256,
    ensures
        decode(frame_levels(frame)) == Some(
            Err::<SensorReading, DecodeError>(DecodeError::ChecksumMismatch),
        ),
{
    lemma_frame_round_trip(frame);
}

/// Whatever levels a cycle observes on the way: when they carry a frame,
/// the outcome is decided by the frame alone.
pub proof fn law_outcome_follows_the_frame(obs: Seq<Level>, frame: RawFrame)
    requires
        parse_frame(obs) == (Parsed::Done { value: frame, end: obs.len() as int }),
    ensures
        frame.intact() ==> decode(obs) == Some(Ok::<SensorReading, DecodeError>(frame.reading())),
        !frame.intact() ==> decode(obs) == Some(
            Err::<SensorReading, DecodeError>(DecodeError::ChecksumMismatch),
        ),
{
}

/// The level of the line `offset` microseconds after a rising edge, when
/// the sensor holds the line high for `high_micros` from that edge on.
pub open spec fn level_after_rise(high_micros: nat, offset: nat) -> Level {
    if offset < high_micros {
        Level::High
    } else {
        Level::Low
    }
}

/// The sample offset lies between the two pulse widths. The pulse of a zero
/// is over when the sample is taken, however late the sample comes; the
/// pulse of a one still lasts, as long as the sample comes less than 40
/// microseconds late.
pub proof fn law_sample_offset_separates_the_pulses(high_micros: nat, late: nat)
    ensures
        ZERO_BIT_HIGH_MICROS < SAMPLE_OFFSET_MICROS < ONE_BIT_HIGH_MICROS,
        high_micros <= ZERO_BIT_HIGH_MICROS ==> level_after_rise(
            high_micros,
            (SAMPLE_OFFSET_MICROS + late) as nat,
        ) == Level::Low,
        high_micros >= ONE_BIT_HIGH_MICROS && late < 40 ==> level_after_rise(
            high_micros,
            (SAMPLE_OFFSET_MICROS + late) as nat,
        ) == Level::High,
{
}

/// A wait times out exactly when as many observations as the ceiling
/// allows, counted from its start, are all away from the awaited level; it
/// then ends right after the last of them. It is done exactly when one of
/// them is at that level, and ends right after the first such.
pub proof fn law_wait_times_out_at_the_ceiling(obs: Seq<Level>, from: int, target: Level)
    requires
        0 <= from,
    ensures
        await_level(obs, from, target) is TimedOut <==> from + POLL_CEILING <= obs.len()
            && stays_away(obs, from, POLL_CEILING as int, target),
        await_level(obs, from, target) matches Parsed::TimedOut { end } ==> end == from
            + POLL_CEILING,
        await_level(obs, from, target) matches Parsed::Done { end, .. } ==> from < end <= from
            + POLL_CEILING && obs[end - 1] == target && stays_away(
            obs,
            from,
            end - 1 - from,
            target,
        ),
{
    lemma_scan_meaning(obs, from, target, POLL_CEILING as nat);
    if from + POLL_CEILING <= obs.len() && stays_away(obs, from, POLL_CEILING as int, target) {
        lemma_scan_expires(obs, from, target, POLL_CEILING as nat);
    }
}

/// A wait that times out has polled exactly as often as the ceiling allows
/// and paused after every poll: 20,000 commands and ten milliseconds of
/// pauses.
pub proof fn law_timed_out_wait_takes_ten_milliseconds(obs: Seq<Level>, from: int, target: Level)
    requires
        0 <= from,
        await_level(obs, from, target) is TimedOut,
    ensures
        wait_script(obs, from, target) == missed_polls(POLL_CEILING as nat),
        wait_script(obs, from, target).len() == 20_000,
        script_micros(wait_script(obs, from, target)) == 10_000,
{
    lemma_scan_meaning(obs, from, target, POLL_CEILING as nat);
    lemma_missed_polls_cost(POLL_CEILING as nat);
}

/// A cycle that ends in `Timeout` ends with a wait that ran its full
/// course: the last `POLL_CEILING` levels it observed were all away from the
/// level that this wait was for.
pub proof fn law_cycle_times_out_after_a_full_wait(obs: Seq<Level>)
    requires
        decode(obs) == Some(Err::<SensorReading, DecodeError>(DecodeError::Timeout)),
    ensures
        obs.len() >= POLL_CEILING,
        exists|target: Level| #[trigger]
            stays_away(obs, obs.len() - POLL_CEILING, POLL_CEILING as int, target),
{
    lemma_parse_frame_timeout(obs);
    let end = obs.len() as int;
    let target = choose|target: Level|
        end >= POLL_CEILING && #[trigger] await_level(obs, end - POLL_CEILING, target) == (
        Parsed::<()>::TimedOut { end });
    lemma_scan_meaning(obs, end - POLL_CEILING, target, POLL_CEILING as nat);
    assert(stays_away(obs, obs.len() - POLL_CEILING, POLL_CEILING as int, target));
}

/// On a line that stays low, a cycle times out in its first wait, after
/// exactly `POLL_CEILING` polls.
pub proof fn law_line_stuck_low_times_out(obs: Seq<Level>)
    requires
        obs.len() == POLL_CEILING,
        forall|i: int| 0 <= i < obs.len() ==> obs[i] == Level::Low,
    ensures
        decode(obs) == Some(Err::<SensorReading, DecodeError>(DecodeError::Timeout)),
        frame_script(obs) == start_script() + missed_polls(POLL_CEILING as nat),
{
    lemma_scan_expires(obs, 0, Level::High, POLL_CEILING as nat);
}

/// On a line that stays high, as it does when no sensor answers, the first
/// wait is done with one poll, and the cycle times out in its second wait
/// after exactly `POLL_CEILING` polls more.
pub proof fn law_line_stuck_high_times_out(obs: Seq<Level>)
    requires
        obs.len() == POLL_CEILING + 1,
        forall|i: int| 0 <= i < obs.len() ==> obs[i] == Level::High,
    ensures
        decode(obs) == Some(Err::<SensorReading, DecodeError>(DecodeError::Timeout)),
        frame_script(obs) == start_script().push(Command::Sample) + missed_polls(
            POLL_CEILING as nat,
        ),
{
    lemma_scan_reaches(obs, 0, Level::High, POLL_CEILING as nat, 1);
    lemma_scan_expires(obs, 1, Level::Low, POLL_CEILING as nat);
    assert(missed_polls(0).push(Command::Sample) =~= seq![Command::Sample]);
    assert(frame_script(obs) =~= start_script().push(Command::Sample) + missed_polls(
        POLL_CEILING as nat,
    ));
}

/// The outcome of a cycle depends on the observed levels alone: two
/// decoders that have finished on the same observations have the same
/// outcome.
pub proof fn law_same_observations_same_outcome(first: FrameDecoder, second: FrameDecoder)
    requires
        first.wf(),
        second.wf(),
        first.finished(),
        second.finished(),
        first.seen() == second.seen(),
    ensures
        first.current_outcome() == second.current_outcome(),
        first.issued() == second.issued(),
{
}

/// Reading the same simulated line again gives the same result: two cycles
/// that start on lines with the same levels ahead take the same number of
/// samples, come to the same result and leave the same levels behind.
pub proof fn law_replay_repeats(
    first: SimulatedLine,
    first_end: SimulatedLine,
    first_result: Result<SensorReading, DecodeError>,
    second: SimulatedLine,
    second_end: SimulatedLine,
    second_result: Result<SensorReading, DecodeError>,
)
    requires
        first.pending() == second.pending(),
        first.idle() == second.idle(),
        first.leads_to(first_end),
        decode(first_end.served_since(first)) == Some(first_result),
        second.leads_to(second_end),
        decode(second_end.served_since(second)) == Some(second_result),
    ensures
        first_result == second_result,
        first_end.served_since(first) == second_end.served_since(second),
        first_end.pending() == second_end.pending(),
{
    let first_count = (first_end.served().len() - first.served().len()) as nat;
    let second_count = (second_end.served().len() - second.served().len()) as nat;
    let first_seen = first_end.served_since(first);
    let second_seen = second_end.served_since(second);
    first.lemma_served_since(first_count, first_end);
    second.lemma_served_since(second_count, second_end);
    assert(second.upcoming(second_count) =~= first.upcoming(second_count));
    if first_count <= second_count {
        assert(extends(second_seen, first_seen));
        lemma_parse_frame_stable(second_seen, first_seen);
    } else {
        assert(extends(first_seen, second_seen));
        lemma_parse_frame_stable(first_seen, second_seen);
    }
    assert(first_seen =~= second_seen);
}

/// A read cycle against a simulated line that shows the levels of a frame
/// comes to the outcome of that frame, takes exactly the 122 samples of the
/// frame and leaves what follows them on the line.
pub proof fn law_line_showing_a_frame_reads_as_the_frame(
    line: SimulatedLine,
    end: SimulatedLine,
    result: Result<SensorReading, DecodeError>,
    frame: RawFrame,
    rest: Seq<Level>,
)
    requires
        line.pending() == frame_levels(frame) + rest,
        line.leads_to(end),
        decode(end.served_since(line)) == Some(result),
    ensures
        result == frame.outcome(),
        end.served_since(line) == frame_levels(frame),
        end.pending() == rest,
{
    let count = (end.served().len() - line.served().len()) as nat;
    let seen = end.served_since(line);
    let shown = frame_levels(frame);
    lemma_frame_round_trip(frame);
    line.lemma_served_since(count, end);
    assert(line.upcoming(122) =~= shown);
    if count <= 122 {
        assert(extends(shown, seen));
        lemma_parse_frame_stable(shown, seen);
    } else {
        assert(extends(seen, shown));
        lemma_parse_frame_stable(seen, shown);
    }
    assert(seen =~= shown);
    assert(end.pending() =~= rest);
}

/// A read cycle against a simulated line that shows the levels of a frame
/// carries out the commands of a prompt cycle on it: the start pulse of 18
/// milliseconds low, the release and its hold of 48 microseconds, the two
/// polls of the handshake, and for each of the forty bits a poll, the pause
/// of 30 microseconds, the sample and a poll.
pub proof fn law_line_showing_a_frame_is_driven_as_prescribed(
    line: SimulatedLine,
    end: SimulatedLine,
    result: Result<SensorReading, DecodeError>,
    frame: RawFrame,
    rest: Seq<Level>,
)
    requires
        line.pending() == frame_levels(frame) + rest,
        line.leads_to(end),
        decode(end.served_since(line)) == Some(result),
        end.performed() == line.performed() + frame_script(end.served_since(line)),
    ensures
        end.performed_since(line) == prompt_frame_script(),
{
    law_line_showing_a_frame_reads_as_the_frame(line, end, result, frame, rest);
    lemma_frame_levels_script(frame);
    assert(end.performed_since(line) =~= prompt_frame_script());
}

/// A failure does not stop the loop: after the report of any outcome the
/// loop pauses for the read period, and after the pause it starts a fresh
/// cycle with the start pulse.
pub proof fn law_loop_goes_on_after_any_outcome(
    reporting: ReadLoop,
    sleeping: ReadLoop,
    reading: ReadLoop,
    level: Level,
    other: Level,
)
    requires
        reporting.wf(),
        reporting.phase() == LoopPhase::Reporting,
        reporting.steps_to(level, sleeping),
        sleeping.steps_to(other, reading),
    ensures
        reporting.next_action() == Action::Report(reporting.last()),
        sleeping.next_action() == Action::Perform(Command::DelayMillis(READ_PERIOD_MILLIS)),
        reading.next_action() == Action::Perform(Command::SetLow),
        reading.decoder().phase() == FramePhase::StartLow,
{
}

/// Every round of the loop is the same, whatever its read cycle comes to:
/// the pause of the read period, the commands of the cycle, and the report.
/// The next round begins with the report done. From the start of one round
/// to the start of the next the loop therefore pauses for the read period
/// and for what the cycle itself pauses, which is no more than 839,248
/// microseconds.
pub proof fn law_every_round_is_pause_cycle_report(
    reporting: ReadLoop,
    level: Level,
    sleeping: ReadLoop,
)
    requires
        reporting.wf(),
        reporting.phase() == LoopPhase::Reporting,
        reporting.steps_to(level, sleeping),
    ensures
        sleeping.phase() == LoopPhase::Sleeping,
        sleeping.round_so_far() == Seq::<Action>::empty(),
        sleeping.acted().skip(reporting.round_start()) == round_script(
            reporting.decoder().seen(),
        ),
        round_script(reporting.decoder().seen()).first() == Action::Perform(
            Command::DelayMillis(READ_PERIOD_MILLIS),
        ),
        round_script(reporting.decoder().seen()).last() == Action::Report(reporting.last()),
        script_micros(frame_script(reporting.decoder().seen())) <= 839_248,
{
    law_cycle_is_bounded(reporting.decoder());
    assert(sleeping.round_so_far() =~= Seq::<Action>::empty());
}

/// A cycle is reported as it ended: the report carries the decoding of the
/// levels that the cycle observed.
pub proof fn law_report_is_the_decoding(reading: ReadLoop, level: Level, reporting: ReadLoop)
    requires
        reading.wf(),
        reading.steps_to(level, reporting),
        reporting.phase() == LoopPhase::Reporting,
    ensures
        decode(reporting.decoder().seen()) is Some,
        reporting.next_action() == Action::Report(
            ReadOutcome::of(decode(reporting.decoder().seen())->0),
        ),
        reporting.decoder().issued() == frame_script(reporting.decoder().seen()),
{
}

/// No wait pauses for more than ten milliseconds in all, and none takes
/// more than 20,000 commands.
pub proof fn law_wait_is_bounded(waiter: LevelWaiter)
    requires
        waiter.wf(),
    ensures
        waiter.remaining() <= LevelWaiter::longest(),
        waiter.remaining_micros() <= LevelWaiter::longest_micros(),
        LevelWaiter::longest() == 20_000,
        LevelWaiter::longest_micros() == 10_000,
{
}

/// No cycle takes more than 1,640,084 commands, and none pauses for more
/// than 839,248 microseconds in all. So a cycle, however it ends, comes to
/// its end in bounded time, and the loop comes back to its pause.
pub proof fn law_cycle_is_bounded(decoder: FrameDecoder)
    requires
        decoder.wf(),
    ensures
        decoder.remaining() <= FrameDecoder::longest(),
        decoder.remaining_micros() <= FrameDecoder::longest_micros(),
        script_micros(decoder.issued()) <= FrameDecoder::longest_micros(),
        FrameDecoder::longest() == 1_640_084,
        FrameDecoder::longest_micros() == 839_248,
{
    let reader = decoder.reader();
    if decoder.phase() == FramePhase::Bytes {
        let left = 4 - decoder.byte_index();
        let later = 7 - reader.bit_index();
        let byte = ByteReader::longest() as int;
        let bit = ByteReader::longest_bit() as int;
        let byte_micros = ByteReader::longest_micros() as int;
        let bit_micros = ByteReader::longest_bit_micros() as int;
        assert(later * bit <= 7 * bit && later * bit_micros <= 7 * bit_micros)
            by (nonlinear_arith)
            requires
                later <= 7,
                bit >= 0,
                bit_micros >= 0,
        ;
        assert(left * byte <= 4 * byte && left * byte_micros <= 4 * byte_micros)
            by (nonlinear_arith)
            requires
                left <= 4,
                byte >= 0,
                byte_micros >= 0,
        ;
    }
}

} // verus!
