use dht22::byte_reader::ByteReader;
use dht22::frame::DecodeError;
use dht22::signal::Command;
use dht22::signal::Level;
use dht22::signal::ONE_BIT_HIGH_MICROS;
use dht22::signal::SAMPLE_OFFSET_MICROS;
use dht22::signal::ZERO_BIT_HIGH_MICROS;

fn feed_byte(reader: &mut ByteReader, levels: &[Level]) -> usize {
    let mut used = 0;
    while let Some(command) = reader.command() {
        let level = if command == Command::Sample {
            let level = levels[used];
            used += 1;
            level
        } else {
            Level::High
        };
        reader.advance(level);
    }
    used
}

fn shortest_levels(byte: u8) -> Vec<Level> {
    let mut levels = Vec::new();
    for n in 0..8 {
        levels.push(Level::High);
        levels.push(if byte & (1 << (7 - n)) != 0 { Level::High } else { Level::Low });
        levels.push(Level::Low);
    }
    levels
}

#[test]
fn sample_offset_is_thirty_microseconds() {
    assert_eq!(SAMPLE_OFFSET_MICROS, 30);
}

#[test]
fn sample_offset_lies_between_the_pulse_widths() {
    assert_eq!(ZERO_BIT_HIGH_MICROS, 28);
    assert_eq!(ONE_BIT_HIGH_MICROS, 70);
    assert!(ZERO_BIT_HIGH_MICROS < SAMPLE_OFFSET_MICROS);
    assert!(SAMPLE_OFFSET_MICROS < ONE_BIT_HIGH_MICROS);
}

#[test]
fn one_bit_is_wait_pause_sample_wait() {
    let mut reader = ByteReader::new();
    assert_eq!(reader.command(), Some(Command::Sample));
    reader.advance(Level::High);
    assert_eq!(reader.command(), Some(Command::DelayMicros(30)));
    reader.advance(Level::Low);
    assert_eq!(reader.command(), Some(Command::Sample));
    reader.advance(Level::High);
    assert_eq!(reader.command(), Some(Command::Sample));
    reader.advance(Level::High);
    assert_eq!(reader.command(), Some(Command::DelayMicros(1)));
    reader.advance(Level::High);
    assert_eq!(reader.command(), Some(Command::Sample));
    reader.advance(Level::Low);
    // The second bit begins with the wait for its rising edge.
    assert_eq!(reader.command(), Some(Command::Sample));
    assert_eq!(reader.result(), None);
}

#[test]
fn first_bit_is_the_most_significant() {
    let mut levels = vec![Level::High, Level::High, Level::Low];
    for _ in 0..7 {
        levels.extend_from_slice(&[Level::High, Level::Low, Level::Low]);
    }
    let mut reader = ByteReader::new();
    assert_eq!(feed_byte(&mut reader, &levels), 24);
    assert_eq!(reader.result(), Some(Ok(0x80)));
}

#[test]
fn last_bit_is_the_least_significant() {
    let mut levels = Vec::new();
    for _ in 0..7 {
        levels.extend_from_slice(&[Level::High, Level::Low, Level::Low]);
    }
    levels.extend_from_slice(&[Level::High, Level::High, Level::Low]);
    let mut reader = ByteReader::new();
    assert_eq!(feed_byte(&mut reader, &levels), 24);
    assert_eq!(reader.result(), Some(Ok(0x01)));
}

#[test]
fn every_byte_is_read_back() {
    for byte in 0..=255u8 {
        let levels = shortest_levels(byte);
        let mut reader = ByteReader::new();
        assert_eq!(feed_byte(&mut reader, &levels), 24);
        assert_eq!(reader.result(), Some(Ok(byte)));
    }
}

#[test]
fn slow_edges_do_not_change_the_byte() {
    // Every wait needs a few polls before it finds its level.
    let mut levels = Vec::new();
    for n in 0..8 {
        levels.extend_from_slice(&[Level::Low, Level::Low, Level::Low, Level::High]);
        let one = 0xA5u8 & (1 << (7 - n)) != 0;
        levels.push(if one { Level::High } else { Level::Low });
        if one {
            levels.extend_from_slice(&[Level::High, Level::High]);
        }
        levels.push(Level::Low);
    }
    let mut reader = ByteReader::new();
    let used = feed_byte(&mut reader, &levels);
    assert_eq!(used, levels.len());
    assert_eq!(reader.result(), Some(Ok(0xA5)));
}

#[test]
fn byte_fails_when_the_line_never_rises() {
    let levels = vec![Level::Low; 10_000];
    let mut reader = ByteReader::new();
    assert_eq!(feed_byte(&mut reader, &levels), 10_000);
    assert_eq!(reader.result(), Some(Err(DecodeError::Timeout)));
    assert_eq!(reader.command(), None);
}

#[test]
fn byte_fails_when_the_line_never_falls() {
    // Three good bits, then the line stays high after the fourth sample.
    let mut levels = Vec::new();
    for _ in 0..3 {
        levels.extend_from_slice(&[Level::High, Level::High, Level::Low]);
    }
    levels.extend_from_slice(&[Level::High, Level::High]);
    levels.extend(vec![Level::High; 10_000]);
    let mut reader = ByteReader::new();
    assert_eq!(feed_byte(&mut reader, &levels), 9 + 2 + 10_000);
    assert_eq!(reader.result(), Some(Err(DecodeError::Timeout)));
}

#[test]
fn finished_reader_stays_finished() {
    let levels = shortest_levels(0x3C);
    let mut reader = ByteReader::new();
    feed_byte(&mut reader, &levels);
    reader.advance(Level::High);
    reader.advance(Level::Low);
    assert_eq!(reader.result(), Some(Ok(0x3C)));
    assert_eq!(reader.command(), None);
}
