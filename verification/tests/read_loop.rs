use dht22::frame::DecodeError;
use dht22::frame::RawFrame;
use dht22::frame::ReadOutcome;
use dht22::frame::SensorReading;
use dht22::read_loop::Action;
use dht22::read_loop::ReadLoop;
use dht22::signal::Command;
use dht22::signal::Level;
use dht22::signal::READ_PERIOD_MILLIS;
use dht22::simulated::SimulatedLine;
use dht22::waveform::levels_of_frame;

fn run_until_report(cycle: &mut ReadLoop, line: &mut SimulatedLine) -> (Vec<Command>, ReadOutcome) {
    let mut script = Vec::new();
    loop {
        match cycle.action() {
            Action::Perform(command) => {
                if command != Command::Sample {
                    script.push(command);
                }
                let level = line.perform(command);
                cycle.advance(level);
            }
            Action::Report(outcome) => {
                cycle.advance(Level::High);
                return (script, outcome);
            }
        }
    }
}

#[test]
fn read_period_is_two_seconds() {
    assert_eq!(READ_PERIOD_MILLIS, 2000);
}

#[test]
fn loop_pauses_before_the_first_cycle() {
    let mut cycle = ReadLoop::new();
    assert_eq!(cycle.action(), Action::Perform(Command::DelayMillis(2000)));
    cycle.advance(Level::High);
    assert_eq!(cycle.action(), Action::Perform(Command::SetLow));
    cycle.advance(Level::High);
    assert_eq!(cycle.action(), Action::Perform(Command::DelayMillis(18)));
}

#[test]
fn loop_reports_a_reading_and_pauses_again() {
    let frame = RawFrame::new(0x02, 0x8A, 0x01, 0x05, 0x92);
    let mut line = SimulatedLine::new(levels_of_frame(&frame), Level::High);
    let mut cycle = ReadLoop::new();
    let (script, outcome) = run_until_report(&mut cycle, &mut line);
    assert_eq!(script[0], Command::DelayMillis(2000));
    assert_eq!(script[1], Command::SetLow);
    assert_eq!(
        outcome,
        ReadOutcome::Reading(SensorReading { humidity_tenths: 650, temperature_tenths: 261 })
    );
    assert_eq!(cycle.action(), Action::Perform(Command::DelayMillis(2000)));
}

#[test]
fn loop_goes_on_after_a_timeout() {
    let mut line = SimulatedLine::new(Vec::new(), Level::Low);
    let mut cycle = ReadLoop::new();
    let (_, outcome) = run_until_report(&mut cycle, &mut line);
    assert_eq!(outcome, ReadOutcome::Failure(DecodeError::Timeout));
    assert_eq!(cycle.action(), Action::Perform(Command::DelayMillis(2000)));
    cycle.advance(Level::Low);
    assert_eq!(cycle.action(), Action::Perform(Command::SetLow));
}

#[test]
fn loop_goes_on_after_a_checksum_mismatch() {
    let frame = RawFrame::new(0x02, 0x8A, 0x01, 0x05, 0x93);
    let mut line = SimulatedLine::new(levels_of_frame(&frame), Level::High);
    let mut cycle = ReadLoop::new();
    let (_, outcome) = run_until_report(&mut cycle, &mut line);
    assert_eq!(outcome, ReadOutcome::Failure(DecodeError::ChecksumMismatch));
    assert_eq!(cycle.action(), Action::Perform(Command::DelayMillis(2000)));
}

#[test]
fn every_cycle_is_preceded_by_one_pause_of_the_period() {
    let good = RawFrame::new(0x02, 0x8A, 0x01, 0x05, 0x92);
    let bad = RawFrame::new(0x02, 0x8A, 0x01, 0x05, 0x00);
    let mut levels = levels_of_frame(&bad);
    levels.extend(levels_of_frame(&good));
    let mut line = SimulatedLine::new(levels, Level::Low);
    let mut cycle = ReadLoop::new();
    let expected = [
        ReadOutcome::Failure(DecodeError::ChecksumMismatch),
        ReadOutcome::Reading(SensorReading { humidity_tenths: 650, temperature_tenths: 261 }),
        ReadOutcome::Failure(DecodeError::Timeout),
        ReadOutcome::Failure(DecodeError::Timeout),
    ];
    for outcome in expected {
        let (script, reported) = run_until_report(&mut cycle, &mut line);
        assert_eq!(reported, outcome);
        let pauses = script.iter().filter(|c| **c == Command::DelayMillis(2000)).count();
        assert_eq!(pauses, 1);
        assert_eq!(script[0], Command::DelayMillis(2000));
        assert_eq!(
            &script[1..5],
            &[
                Command::SetLow,
                Command::DelayMillis(18),
                Command::SetHigh,
                Command::DelayMicros(48)
            ]
        );
    }
}
