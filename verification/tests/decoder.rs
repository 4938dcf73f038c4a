use dht22::decoder::FrameDecoder;
use dht22::frame::DecodeError;
use dht22::frame::RawFrame;
use dht22::frame::SensorReading;
use dht22::signal::Command;
use dht22::signal::Level;
use dht22::signal::RELEASE_HOLD_MICROS;
use dht22::signal::START_PULSE_MILLIS;
use dht22::waveform::levels_of_frame;

fn run_cycle(levels: &[Level], idle: Level) -> (Vec<Command>, usize, Result<SensorReading, DecodeError>) {
    let mut decoder = FrameDecoder::new();
    let mut script = Vec::new();
    let mut used = 0;
    while let Some(command) = decoder.command() {
        assert_eq!(decoder.outcome(), None);
        let level = if command == Command::Sample {
            let level = if used < levels.len() { levels[used] } else { idle };
            used += 1;
            level
        } else {
            script.push(command);
            idle
        };
        decoder.advance(level);
    }
    (script, used, decoder.outcome().unwrap())
}

#[test]
fn timing_constants_of_the_start_pulse() {
    assert_eq!(START_PULSE_MILLIS, 18);
    assert_eq!(RELEASE_HOLD_MICROS, 48);
}

#[test]
fn cycle_opens_with_the_start_pulse() {
    let mut decoder = FrameDecoder::new();
    assert_eq!(decoder.command(), Some(Command::SetLow));
    decoder.advance(Level::High);
    assert_eq!(decoder.command(), Some(Command::DelayMillis(18)));
    decoder.advance(Level::High);
    assert_eq!(decoder.command(), Some(Command::SetHigh));
    decoder.advance(Level::High);
    assert_eq!(decoder.command(), Some(Command::DelayMicros(48)));
    decoder.advance(Level::High);
    assert_eq!(decoder.command(), Some(Command::Sample));
    assert_eq!(decoder.outcome(), None);
}

#[test]
fn start_pulse_does_not_look_at_the_line() {
    let mut decoder = FrameDecoder::new();
    for _ in 0..4 {
        decoder.advance(Level::Low);
    }
    // The handshake begins only now: a high level ends its first wait.
    assert_eq!(decoder.command(), Some(Command::Sample));
    decoder.advance(Level::High);
    assert_eq!(decoder.command(), Some(Command::Sample));
}

#[test]
fn decoder_reads_the_example_frame() {
    let frame = RawFrame::new(0x02, 0x8A, 0x01, 0x05, 0x92);
    let levels = levels_of_frame(&frame);
    let (script, used, outcome) = run_cycle(&levels, Level::High);
    assert_eq!(used, 122);
    assert_eq!(outcome, Ok(SensorReading { humidity_tenths: 650, temperature_tenths: 261 }));
    // Besides the samples: the start pulse, then one pause before each of the forty bits.
    assert_eq!(script.len(), 4 + 40);
    assert_eq!(
        &script[..4],
        &[
            Command::SetLow,
            Command::DelayMillis(18),
            Command::SetHigh,
            Command::DelayMicros(48)
        ]
    );
    assert!(script[4..].iter().all(|c| *c == Command::DelayMicros(30)));
}

#[test]
fn decoder_rejects_the_example_frame_with_checksum_0x93() {
    let frame = RawFrame::new(0x02, 0x8A, 0x01, 0x05, 0x93);
    let levels = levels_of_frame(&frame);
    let (_, used, outcome) = run_cycle(&levels, Level::High);
    assert_eq!(used, 122);
    assert_eq!(outcome, Err(DecodeError::ChecksumMismatch));
}

#[test]
fn decoder_times_out_in_the_first_wait_on_a_low_line() {
    let (script, used, outcome) = run_cycle(&[], Level::Low);
    assert_eq!(outcome, Err(DecodeError::Timeout));
    assert_eq!(used, 10_000);
    assert_eq!(script.len(), 4 + 10_000);
    assert!(script[4..].iter().all(|c| *c == Command::DelayMicros(1)));
}

#[test]
fn decoder_times_out_in_the_second_wait_on_a_high_line() {
    let (_, used, outcome) = run_cycle(&[], Level::High);
    assert_eq!(outcome, Err(DecodeError::Timeout));
    assert_eq!(used, 10_001);
}

#[test]
fn decoder_times_out_when_the_frame_breaks_off() {
    let frame = RawFrame::new(0x02, 0x8A, 0x01, 0x05, 0x92);
    let levels = levels_of_frame(&frame);
    // The sensor falls silent, the line low, after two bytes and a half.
    let cut = 2 + 24 * 2 + 12;
    let (_, used, outcome) = run_cycle(&levels[..cut], Level::Low);
    assert_eq!(outcome, Err(DecodeError::Timeout));
    assert_eq!(used, cut + 10_000);
}

#[test]
fn finished_decoder_stays_finished() {
    let frame = RawFrame::new(0x01, 0x02, 0x03, 0x04, 0x0A);
    let levels = levels_of_frame(&frame);
    let mut decoder = FrameDecoder::new();
    let mut used = 0;
    while let Some(command) = decoder.command() {
        let level = if command == Command::Sample {
            used += 1;
            levels[used - 1]
        } else {
            Level::High
        };
        decoder.advance(level);
    }
    let outcome = decoder.outcome();
    assert_eq!(outcome, Some(Ok(SensorReading { humidity_tenths: 258, temperature_tenths: 772 })));
    decoder.advance(Level::Low);
    decoder.advance(Level::High);
    assert_eq!(decoder.command(), None);
    assert_eq!(decoder.outcome(), outcome);
}

#[test]
fn equal_observations_give_equal_outcomes() {
    let frame = RawFrame::new(0x03, 0x21, 0x00, 0xF0, 0x14);
    let levels = levels_of_frame(&frame);
    let first = run_cycle(&levels, Level::High);
    let second = run_cycle(&levels, Level::High);
    assert_eq!(first, second);
    assert_eq!(first.2, Ok(SensorReading { humidity_tenths: 801, temperature_tenths: 240 }));
}

#[test]
fn cycle_with_prompt_edges_pauses_for_pulse_hold_and_forty_offsets() {
    let frame = RawFrame::new(0x02, 0x8A, 0x01, 0x05, 0x92);
    let levels = levels_of_frame(&frame);
    let (script, _, _) = run_cycle(&levels, Level::High);
    let micros: u64 = script.iter().map(|c| c.micros()).sum();
    assert_eq!(micros, 18_000 + 48 + 40 * 30);
}

#[test]
fn cycle_that_times_out_at_once_pauses_pulse_hold_and_ten_milliseconds() {
    let (script, _, _) = run_cycle(&[], Level::Low);
    let micros: u64 = script.iter().map(|c| c.micros()).sum();
    assert_eq!(micros, 18_000 + 48 + 10_000);
}

#[test]
fn slowest_cycle_stays_within_the_bounds() {
    // Every wait finds its level only with its last poll.
    let frame = RawFrame::new(0xFF, 0xFF, 0xFF, 0xFF, 0xFC);
    let mut levels = vec![Level::Low; 9_999];
    levels.push(Level::High);
    levels.extend(vec![Level::High; 9_999]);
    levels.push(Level::Low);
    let bytes = [0xFFu8, 0xFF, 0xFF, 0xFF, 0xFC];
    for byte in bytes {
        for n in 0..8 {
            levels.extend(vec![Level::Low; 9_999]);
            levels.push(Level::High);
            levels.push(if byte & (1 << (7 - n)) != 0 { Level::High } else { Level::Low });
            levels.extend(vec![Level::High; 9_999]);
            levels.push(Level::Low);
        }
    }
    let mut decoder = FrameDecoder::new();
    let mut used = 0usize;
    let mut commands = 0u64;
    let mut micros = 0u64;
    while let Some(command) = decoder.command() {
        commands += 1;
        micros += command.micros();
        let level = if command == Command::Sample {
            used += 1;
            levels[used - 1]
        } else {
            Level::High
        };
        decoder.advance(level);
    }
    assert_eq!(decoder.outcome(), Some(frame.decode()));
    assert_eq!(used, levels.len());
    assert_eq!(micros, 18_000 + 48 + 82 * 9_999 + 40 * 30);
    assert!(micros <= 839_248);
    assert_eq!(commands, 4 + 82 * (2 * 9_999 + 1) + 40 * 2);
    assert!(commands <= 1_640_084);
}
