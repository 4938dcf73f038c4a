//! The five bytes of a reading, their checksum and their meaning.

use vstd::prelude::*;

verus! {

/// Why a read cycle gave no reading.
#[derive(Clone, Copy, Debug, PartialEq, Eq, Structural)]
pub enum DecodeError {
    /// The line did not reach an awaited level within the poll ceiling.
    Timeout,
    /// The checksum byte is not the sum of the four data bytes.
    ChecksumMismatch,
}

/// Humidity and temperature as the sensor sends them: unsigned, in tenths.
///
/// The humidity in percent is `humidity_tenths / 10`, the temperature in
/// degrees Celsius `temperature_tenths / 10`. The temperature is taken as
/// unsigned: a sensor that marks a negative temperature with its top bit
/// shows up here as a value of 32768 tenths or more.
#[derive(Clone, Copy, Debug, PartialEq, Eq, Structural)]
pub struct SensorReading {
    pub humidity_tenths: u16,
    pub temperature_tenths: u16,
}

/// What one read cycle came to.
#[derive(Clone, Copy, Debug, PartialEq, Eq, Structural)]
pub enum ReadOutcome {
    Reading(SensorReading),
    Failure(DecodeError),
}

/// The five bytes of one transmission, in the order they arrive.
#[derive(Clone, Copy, Debug, PartialEq, Eq, Structural)]
pub struct RawFrame {
    pub humidity_high: u8,
    pub humidity_low: u8,
    pub temperature_high: u8,
    pub temperature_low: u8,
    pub checksum: u8,
}

/// The 16-bit number whose upper byte is `high` and whose lower byte is
/// `low`.
pub open spec fn join(high: u8, low: u8) -> u16 {
    (high * 256 + low) as u16
}

/// Joins two bytes into the 16-bit number `(high << 8) | low`.
pub fn join_bytes(high: u8, low: u8) -> (r: u16)
    ensures
        r == join(high, low),
        r == high * 256 + low,
{
    let wide_high: u16 = high as u16;
    let wide_low: u16 = low as u16;
    assert((wide_high << 8) | wide_low == wide_high * 256 + wide_low) by (bit_vector)
        requires
            wide_high < 256,
            wide_low < 256,
    ;
    (wide_high << 8) | wide_low
}

impl ReadOutcome {
    /// The outcome that stands for a result.
    pub open spec fn of(result: Result<SensorReading, DecodeError>) -> ReadOutcome {
        match result {
            Ok(reading) => ReadOutcome::Reading(reading),
            Err(error) => ReadOutcome::Failure(error),
        }
    }

    /// Turns a result into an outcome.
    pub fn from_result(result: Result<SensorReading, DecodeError>) -> (o: ReadOutcome)
        ensures
            o == Self::of(result),
    {
        match result {
            Ok(reading) => ReadOutcome::Reading(reading),
            Err(error) => ReadOutcome::Failure(error),
        }
    }
}

impl RawFrame {
    /// The frame made of the first five bytes of `bytes`.
    pub open spec fn of(bytes: Seq<u8>) -> RawFrame {
        RawFrame {
            humidity_high: bytes[0],
            humidity_low: bytes[1],
            temperature_high: bytes[2],
            temperature_low: bytes[3],
            checksum: bytes[4],
        }
    }

    /// The five bytes in the order they arrive.
    pub open spec fn bytes(self) -> Seq<u8> {
        seq![
            self.humidity_high,
            self.humidity_low,
            self.temperature_high,
            self.temperature_low,
            self.checksum,
        ]
    }

    /// The sum of the four data bytes, modulo 256.
    pub open spec fn data_sum(self) -> u8 {
        ((self.humidity_high + self.humidity_low + self.temperature_high + self.temperature_low)
            % 256) as u8
    }

    /// The checksum byte agrees with the data bytes.
    pub open spec fn intact(self) -> bool {
        self.checksum == self.data_sum()
    }

    /// The values that the data bytes carry.
    pub open spec fn reading(self) -> SensorReading {
        SensorReading {
            humidity_tenths: join(self.humidity_high, self.humidity_low),
            temperature_tenths: join(self.temperature_high, self.temperature_low),
        }
    }

    /// The reading of an intact frame, the checksum error of any other.
    pub open spec fn outcome(self) -> Result<SensorReading, DecodeError> {
        if self.intact() {
            Ok(self.reading())
        } else {
            Err(DecodeError::ChecksumMismatch)
        }
    }

    /// Puts five received bytes together.
    pub fn new(
        humidity_high: u8,
        humidity_low: u8,
        temperature_high: u8,
        temperature_low: u8,
        checksum: u8,
    ) -> (f: RawFrame)
        ensures
            f == (RawFrame {
                humidity_high,
                humidity_low,
                temperature_high,
                temperature_low,
                checksum,
            }),
    {
        RawFrame { humidity_high, humidity_low, temperature_high, temperature_low, checksum }
    }

    /// Adds up the four data bytes, wrapping at 256.
    pub fn sum(&self) -> (s: u8)
        ensures
            s == self.data_sum(),
    {
        self.humidity_high.wrapping_add(self.humidity_low).wrapping_add(
            self.temperature_high,
        ).wrapping_add(self.temperature_low)
    }

    /// Checks the frame and converts it.
    ///
    /// Returns the reading when the checksum byte equals the wrapped sum of
    /// the data bytes, and `ChecksumMismatch` in every other case.
    pub fn decode(&self) -> (r: Result<SensorReading, DecodeError>)
        ensures
            r == self.outcome(),
            r is Ok <==> self.checksum == (self.humidity_high + self.humidity_low
                + self.temperature_high + self.temperature_low) % 256,
            r matches Ok(reading) ==> reading.humidity_tenths == self.humidity_high * 256
                + self.humidity_low && reading.temperature_tenths == self.temperature_high * 256
                + self.temperature_low,
            r matches Err(error) ==> error == DecodeError::ChecksumMismatch,
    {
        let humidity_tenths = join_bytes(self.humidity_high, self.humidity_low);
        let temperature_tenths = join_bytes(self.temperature_high, self.temperature_low);
        if self.sum() != self.checksum {
            return Err(DecodeError::ChecksumMismatch);
        }
        Ok(SensorReading { humidity_tenths, temperature_tenths })
    }
}

} // verus!
