use dht22::frame::join_bytes;
use dht22::frame::DecodeError;
use dht22::frame::RawFrame;
use dht22::frame::ReadOutcome;
use dht22::frame::SensorReading;

#[test]
fn example_frame_gives_65_percent_and_26_1_degrees() {
    let frame = RawFrame::new(0x02, 0x8A, 0x01, 0x05, 0x92);
    assert_eq!(frame.sum(), 0x92);
    let reading = frame.decode().unwrap();
    assert_eq!(reading, SensorReading { humidity_tenths: 650, temperature_tenths: 261 });
    assert_eq!(reading.humidity_tenths as f32 / 10.0, 65.0);
    assert_eq!(reading.temperature_tenths as f32 / 10.0, 26.1);
}

#[test]
fn example_frame_with_checksum_0x93_is_a_mismatch() {
    let frame = RawFrame::new(0x02, 0x8A, 0x01, 0x05, 0x93);
    assert_eq!(frame.decode(), Err(DecodeError::ChecksumMismatch));
}

#[test]
fn checksum_wraps_at_256() {
    let frame = RawFrame::new(0xFF, 0xFF, 0xFF, 0xFF, 0xFC);
    assert_eq!(frame.sum(), 0xFC);
    assert_eq!(
        frame.decode(),
        Ok(SensorReading { humidity_tenths: 0xFFFF, temperature_tenths: 0xFFFF })
    );
    let plain = RawFrame::new(0xFF, 0xFF, 0xFF, 0xFF, 0xFF);
    assert_eq!(plain.decode(), Err(DecodeError::ChecksumMismatch));
}

#[test]
fn join_bytes_puts_the_high_byte_on_top() {
    assert_eq!(join_bytes(0x02, 0x8A), 650);
    assert_eq!(join_bytes(0x01, 0x05), 261);
    assert_eq!(join_bytes(0x00, 0x00), 0);
    assert_eq!(join_bytes(0x00, 0xFF), 255);
    assert_eq!(join_bytes(0xFF, 0x00), 65280);
    assert_eq!(join_bytes(0xFF, 0xFF), 65535);
}

#[test]
fn all_zero_frame_is_intact() {
    let frame = RawFrame::new(0, 0, 0, 0, 0);
    assert_eq!(frame.decode(), Ok(SensorReading { humidity_tenths: 0, temperature_tenths: 0 }));
}

#[test]
fn sign_bit_of_the_temperature_is_read_as_magnitude() {
    // 0x8065 would be -10.1 degrees for a sensor that uses the top bit as a sign.
    let frame = RawFrame::new(0x01, 0x90, 0x80, 0x65, 0x76);
    let reading = frame.decode().unwrap();
    assert_eq!(reading.humidity_tenths, 400);
    assert_eq!(reading.temperature_tenths, 0x8065);
    assert_eq!(reading.temperature_tenths as f32 / 10.0, 3286.9);
}

#[test]
fn every_checksum_byte_but_the_sum_is_rejected() {
    for checksum in 0..=255u8 {
        let frame = RawFrame::new(0x12, 0x34, 0x56, 0x78, checksum);
        let expected = 0x12u8.wrapping_add(0x34).wrapping_add(0x56).wrapping_add(0x78);
        if checksum == expected {
            assert_eq!(
                frame.decode(),
                Ok(SensorReading { humidity_tenths: 0x1234, temperature_tenths: 0x5678 })
            );
        } else {
            assert_eq!(frame.decode(), Err(DecodeError::ChecksumMismatch));
        }
    }
}

#[test]
fn frame_keeps_its_bytes_in_order() {
    let frame = RawFrame::new(1, 2, 3, 4, 10);
    assert_eq!(frame.humidity_high, 1);
    assert_eq!(frame.humidity_low, 2);
    assert_eq!(frame.temperature_high, 3);
    assert_eq!(frame.temperature_low, 4);
    assert_eq!(frame.checksum, 10);
}

#[test]
fn outcome_stands_for_the_result() {
    let reading = SensorReading { humidity_tenths: 650, temperature_tenths: 261 };
    assert_eq!(ReadOutcome::from_result(Ok(reading)), ReadOutcome::Reading(reading));
    assert_eq!(
        ReadOutcome::from_result(Err(DecodeError::Timeout)),
        ReadOutcome::Failure(DecodeError::Timeout)
    );
    assert_eq!(
        ReadOutcome::from_result(Err(DecodeError::ChecksumMismatch)),
        ReadOutcome::Failure(DecodeError::ChecksumMismatch)
    );
}
