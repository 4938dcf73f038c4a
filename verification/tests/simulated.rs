use dht22::frame::DecodeError;
use dht22::frame::RawFrame;
use dht22::frame::SensorReading;
use dht22::signal::Command;
use dht22::signal::Level;
use dht22::simulated::read_byte;
use dht22::simulated::read_sensor;
use dht22::simulated::wait_for_level;
use dht22::simulated::SimulatedLine;
use dht22::waveform::levels_of_frame;

fn padded_levels(frame: &RawFrame, wait: usize) -> Vec<Level> {
    // Like the shortest levels, but every wait polls `wait` times in vain first.
    let bytes = [
        frame.humidity_high,
        frame.humidity_low,
        frame.temperature_high,
        frame.temperature_low,
        frame.checksum,
    ];
    let mut levels = Vec::new();
    levels.extend(vec![Level::Low; wait]);
    levels.push(Level::High);
    levels.extend(vec![Level::High; wait]);
    levels.push(Level::Low);
    for byte in bytes {
        for n in 0..8 {
            levels.extend(vec![Level::Low; wait]);
            levels.push(Level::High);
            levels.push(if byte & (1 << (7 - n)) != 0 { Level::High } else { Level::Low });
            levels.extend(vec![Level::High; wait]);
            levels.push(Level::Low);
        }
    }
    levels
}

#[test]
fn simulated_line_plays_its_levels_then_idles() {
    let mut line = SimulatedLine::new(vec![Level::Low, Level::High, Level::Low], Level::High);
    assert_eq!(line.remaining(), 3);
    assert_eq!(line.sample(), Level::Low);
    assert_eq!(line.sample(), Level::High);
    assert_eq!(line.remaining(), 1);
    assert_eq!(line.sample(), Level::Low);
    assert_eq!(line.remaining(), 0);
    assert_eq!(line.sample(), Level::High);
    assert_eq!(line.sample(), Level::High);
    assert_eq!(line.remaining(), 0);
}

#[test]
fn only_a_sample_moves_the_simulated_line() {
    let mut line = SimulatedLine::new(vec![Level::Low, Level::High], Level::High);
    assert!(line.commands().is_empty());
    assert_eq!(line.perform(Command::SetLow), Level::High);
    assert_eq!(line.perform(Command::DelayMillis(18)), Level::High);
    assert_eq!(line.perform(Command::SetHigh), Level::High);
    assert_eq!(line.perform(Command::DelayMicros(48)), Level::High);
    assert_eq!(line.remaining(), 2);
    assert_eq!(line.perform(Command::Sample), Level::Low);
    assert_eq!(line.remaining(), 1);
    assert_eq!(line.sample(), Level::High);
    assert_eq!(
        line.commands(),
        &vec![
            Command::SetLow,
            Command::DelayMillis(18),
            Command::SetHigh,
            Command::DelayMicros(48),
            Command::Sample,
            Command::Sample,
        ]
    );
}

#[test]
fn wait_on_a_simulated_line_polls_and_pauses_in_turn() {
    let mut line = SimulatedLine::new(vec![Level::Low, Level::Low, Level::High], Level::Low);
    assert_eq!(wait_for_level(&mut line, Level::High), Ok(()));
    assert_eq!(
        line.commands(),
        &vec![
            Command::Sample,
            Command::DelayMicros(1),
            Command::Sample,
            Command::DelayMicros(1),
            Command::Sample,
        ]
    );
}

#[test]
fn timed_out_wait_has_paused_ten_milliseconds() {
    let mut line = SimulatedLine::new(Vec::new(), Level::High);
    assert_eq!(wait_for_level(&mut line, Level::Low), Err(DecodeError::Timeout));
    let log = line.commands();
    assert_eq!(log.len(), 20_000);
    assert_eq!(log.iter().map(|c| c.micros()).sum::<u64>(), 10_000);
    assert_eq!(log.iter().filter(|c| **c == Command::Sample).count(), 10_000);
    assert_eq!(log[19_999], Command::DelayMicros(1));
}

#[test]
fn byte_on_a_simulated_line_pauses_thirty_microseconds_before_each_sample() {
    let frame = RawFrame::new(0x5A, 0, 0, 0, 0x5A);
    let levels = levels_of_frame(&frame);
    let mut line = SimulatedLine::new(levels[2..26].to_vec(), Level::Low);
    assert_eq!(read_byte(&mut line), Ok(0x5A));
    let log = line.commands();
    assert_eq!(log.len(), 32);
    for bit in 0..8 {
        assert_eq!(
            &log[4 * bit..4 * bit + 4],
            &[Command::Sample, Command::DelayMicros(30), Command::Sample, Command::Sample]
        );
    }
}

#[test]
fn cycle_on_a_simulated_line_is_driven_as_prescribed() {
    let frame = RawFrame::new(0x02, 0x8A, 0x01, 0x05, 0x92);
    let mut line = SimulatedLine::new(levels_of_frame(&frame), Level::High);
    assert!(read_sensor(&mut line).is_ok());
    let log = line.commands();
    assert_eq!(log.len(), 4 + 2 + 40 * 4);
    assert_eq!(
        &log[..6],
        &[
            Command::SetLow,
            Command::DelayMillis(18),
            Command::SetHigh,
            Command::DelayMicros(48),
            Command::Sample,
            Command::Sample,
        ]
    );
    for bit in 0..40 {
        assert_eq!(
            &log[6 + 4 * bit..10 + 4 * bit],
            &[Command::Sample, Command::DelayMicros(30), Command::Sample, Command::Sample]
        );
    }
    assert_eq!(log.iter().map(|c| c.micros()).sum::<u64>(), 18_000 + 48 + 40 * 30);
}

#[test]
fn cycle_that_times_out_is_driven_up_to_the_last_pause() {
    let mut line = SimulatedLine::new(Vec::new(), Level::High);
    assert_eq!(read_sensor(&mut line), Err(DecodeError::Timeout));
    let log = line.commands();
    assert_eq!(log.len(), 4 + 1 + 20_000);
    assert_eq!(log[4], Command::Sample);
    assert_eq!(log[5], Command::Sample);
    assert_eq!(log[6], Command::DelayMicros(1));
    assert_eq!(log[20_004], Command::DelayMicros(1));
    assert_eq!(log.iter().map(|c| c.micros()).sum::<u64>(), 18_000 + 48 + 10_000);
}

#[test]
fn wait_on_a_simulated_line_stops_at_the_target() {
    let mut line = SimulatedLine::new(
        vec![Level::Low, Level::Low, Level::High, Level::Low, Level::High],
        Level::Low,
    );
    assert_eq!(wait_for_level(&mut line, Level::High), Ok(()));
    assert_eq!(line.remaining(), 2);
    assert_eq!(wait_for_level(&mut line, Level::Low), Ok(()));
    assert_eq!(line.remaining(), 1);
}

#[test]
fn wait_on_a_simulated_line_times_out_after_the_ceiling() {
    let mut line = SimulatedLine::new(vec![Level::Low; 25_000], Level::Low);
    assert_eq!(wait_for_level(&mut line, Level::High), Err(DecodeError::Timeout));
    assert_eq!(line.remaining(), 15_000);
    assert_eq!(wait_for_level(&mut line, Level::High), Err(DecodeError::Timeout));
    assert_eq!(line.remaining(), 5_000);
}

#[test]
fn wait_finds_a_level_at_the_last_poll_but_not_one_later() {
    let mut levels = vec![Level::Low; 9_999];
    levels.push(Level::High);
    let mut line = SimulatedLine::new(levels, Level::Low);
    assert_eq!(wait_for_level(&mut line, Level::High), Ok(()));
    assert_eq!(line.remaining(), 0);

    let mut levels = vec![Level::Low; 10_000];
    levels.push(Level::High);
    let mut line = SimulatedLine::new(levels, Level::Low);
    assert_eq!(wait_for_level(&mut line, Level::High), Err(DecodeError::Timeout));
    assert_eq!(line.remaining(), 1);
}

#[test]
fn byte_is_read_off_a_simulated_line() {
    let frame = RawFrame::new(0x02, 0x8A, 0x01, 0x05, 0x92);
    let levels = levels_of_frame(&frame);
    let mut line = SimulatedLine::new(levels[2..].to_vec(), Level::Low);
    assert_eq!(read_byte(&mut line), Ok(0x02));
    assert_eq!(read_byte(&mut line), Ok(0x8A));
    assert_eq!(read_byte(&mut line), Ok(0x01));
    assert_eq!(read_byte(&mut line), Ok(0x05));
    assert_eq!(read_byte(&mut line), Ok(0x92));
    assert_eq!(line.remaining(), 0);
    assert_eq!(read_byte(&mut line), Err(DecodeError::Timeout));
}

#[test]
fn example_frame_reads_65_percent_and_26_1_degrees() {
    let frame = RawFrame::new(0x02, 0x8A, 0x01, 0x05, 0x92);
    let mut line = SimulatedLine::new(levels_of_frame(&frame), Level::High);
    let reading = read_sensor(&mut line).unwrap();
    assert_eq!(reading.humidity_tenths as f32 / 10.0, 65.0);
    assert_eq!(reading.temperature_tenths as f32 / 10.0, 26.1);
    assert_eq!(line.remaining(), 0);
}

#[test]
fn example_frame_with_checksum_0x93_fails_the_cycle() {
    let frame = RawFrame::new(0x02, 0x8A, 0x01, 0x05, 0x93);
    let mut line = SimulatedLine::new(levels_of_frame(&frame), Level::High);
    assert_eq!(read_sensor(&mut line), Err(DecodeError::ChecksumMismatch));
    assert_eq!(line.remaining(), 0);
}

#[test]
fn levels_of_a_frame_are_handshake_and_forty_bits() {
    let frame = RawFrame::new(0x80, 0x00, 0x00, 0x01, 0x81);
    let levels = levels_of_frame(&frame);
    assert_eq!(levels.len(), 122);
    assert_eq!(&levels[..2], &[Level::High, Level::Low]);
    assert_eq!(&levels[2..5], &[Level::High, Level::High, Level::Low]);
    assert_eq!(&levels[5..8], &[Level::High, Level::Low, Level::Low]);
    assert_eq!(&levels[2 + 31 * 3..2 + 32 * 3], &[Level::High, Level::High, Level::Low]);
    assert_eq!(&levels[119..], &[Level::High, Level::High, Level::Low]);
}

#[test]
fn intact_frames_read_back_as_their_values() {
    let mut seed = 0x1234_5678u32;
    for _ in 0..300 {
        seed = seed.wrapping_mul(1_664_525).wrapping_add(1_013_904_223);
        let [b0, b1, b2, b3] = seed.to_be_bytes();
        let sum = b0.wrapping_add(b1).wrapping_add(b2).wrapping_add(b3);
        let frame = RawFrame::new(b0, b1, b2, b3, sum);
        let mut line = SimulatedLine::new(levels_of_frame(&frame), Level::High);
        let reading = read_sensor(&mut line).unwrap();
        assert_eq!(reading.humidity_tenths, ((b0 as u16) << 8) | b1 as u16);
        assert_eq!(reading.temperature_tenths, ((b2 as u16) << 8) | b3 as u16);
        assert_eq!(
            reading.humidity_tenths as f32 / 10.0,
            (((b0 as u16) << 8) | b1 as u16) as f32 / 10.0
        );
    }
}

#[test]
fn corrupt_frames_never_give_a_reading() {
    let mut seed = 0x0BAD_5EEDu32;
    for _ in 0..300 {
        seed = seed.wrapping_mul(1_664_525).wrapping_add(1_013_904_223);
        let [b0, b1, b2, b3] = seed.to_be_bytes();
        let sum = b0.wrapping_add(b1).wrapping_add(b2).wrapping_add(b3);
        let off = 1 + (seed >> 7) as u8 % 255;
        let frame = RawFrame::new(b0, b1, b2, b3, sum.wrapping_add(off));
        let mut line = SimulatedLine::new(levels_of_frame(&frame), Level::High);
        assert_eq!(read_sensor(&mut line), Err(DecodeError::ChecksumMismatch));
    }
}

#[test]
fn slow_sensor_reads_the_same() {
    let frame = RawFrame::new(0x02, 0x8A, 0x01, 0x05, 0x92);
    for wait in [1usize, 7, 80] {
        let levels = padded_levels(&frame, wait);
        let total = levels.len();
        let mut line = SimulatedLine::new(levels, Level::High);
        assert_eq!(
            read_sensor(&mut line),
            Ok(SensorReading { humidity_tenths: 650, temperature_tenths: 261 })
        );
        assert_eq!(line.remaining(), 0);
        assert_eq!(total, 2 * (wait + 1) + 40 * (2 * wait + 3));
    }
}

#[test]
fn silent_low_line_times_out_after_ten_thousand_polls() {
    let mut line = SimulatedLine::new(vec![Level::Low; 30_000], Level::Low);
    assert_eq!(read_sensor(&mut line), Err(DecodeError::Timeout));
    assert_eq!(line.remaining(), 20_000);
}

#[test]
fn silent_high_line_times_out_in_the_second_wait() {
    let mut line = SimulatedLine::new(vec![Level::High; 30_000], Level::High);
    assert_eq!(read_sensor(&mut line), Err(DecodeError::Timeout));
    assert_eq!(line.remaining(), 30_000 - 10_001);
}

#[test]
fn absent_sensor_times_out_on_an_empty_list() {
    let mut line = SimulatedLine::new(Vec::new(), Level::High);
    assert_eq!(read_sensor(&mut line), Err(DecodeError::Timeout));
    assert_eq!(line.remaining(), 0);
}

#[test]
fn frame_that_breaks_off_gives_no_reading() {
    let frame = RawFrame::new(0x02, 0x8A, 0x01, 0x05, 0x92);
    let levels = levels_of_frame(&frame);
    // A line that rests low never shows the next rising edge.
    for cut in [0usize, 1, 2, 3, 50, 119] {
        let mut line = SimulatedLine::new(levels[..cut].to_vec(), Level::Low);
        assert_eq!(read_sensor(&mut line), Err(DecodeError::Timeout));
        assert_eq!(line.remaining(), 0);
    }
    // A line that rests high never shows the next falling edge.
    for cut in [0usize, 1, 2, 3, 50, 120, 121] {
        let mut line = SimulatedLine::new(levels[..cut].to_vec(), Level::High);
        assert_eq!(read_sensor(&mut line), Err(DecodeError::Timeout));
        assert_eq!(line.remaining(), 0);
    }
}

#[test]
fn resting_level_can_stand_for_the_last_falling_edge() {
    let frame = RawFrame::new(0x02, 0x8A, 0x01, 0x05, 0x92);
    let levels = levels_of_frame(&frame);
    let mut line = SimulatedLine::new(levels[..121].to_vec(), Level::Low);
    assert_eq!(
        read_sensor(&mut line),
        Ok(SensorReading { humidity_tenths: 650, temperature_tenths: 261 })
    );
}

#[test]
fn replaying_the_same_levels_gives_the_same_outcome() {
    let intact = RawFrame::new(0x02, 0x8A, 0x01, 0x05, 0x92);
    let corrupt = RawFrame::new(0x02, 0x8A, 0x01, 0x05, 0x93);
    let lists = [
        levels_of_frame(&intact),
        levels_of_frame(&corrupt),
        padded_levels(&intact, 3),
        vec![Level::Low; 12_000],
        levels_of_frame(&intact)[..70].to_vec(),
    ];
    for levels in lists {
        let mut first = SimulatedLine::new(levels.clone(), Level::High);
        let mut second = SimulatedLine::new(levels.clone(), Level::High);
        let first_outcome = read_sensor(&mut first);
        let second_outcome = read_sensor(&mut second);
        assert_eq!(first_outcome, second_outcome);
        assert_eq!(first.remaining(), second.remaining());
    }
}

#[test]
fn cycles_follow_one_another_on_one_line() {
    let first = RawFrame::new(0x02, 0x8A, 0x01, 0x05, 0x92);
    let second = RawFrame::new(0x01, 0xF4, 0x00, 0xC8, 0xBD);
    let mut levels = levels_of_frame(&first);
    levels.extend(levels_of_frame(&second));
    let mut line = SimulatedLine::new(levels, Level::High);
    assert_eq!(
        read_sensor(&mut line),
        Ok(SensorReading { humidity_tenths: 650, temperature_tenths: 261 })
    );
    assert_eq!(line.remaining(), 122);
    assert_eq!(
        read_sensor(&mut line),
        Ok(SensorReading { humidity_tenths: 500, temperature_tenths: 200 })
    );
    assert_eq!(line.remaining(), 0);
}
