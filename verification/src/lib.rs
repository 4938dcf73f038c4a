//! Sans-I/O decoder for the single-wire protocol of the DHT22 humidity and
//! temperature sensor.
//!
//! The decoder never touches hardware. It is a set of small state machines
//! that tell their driver which line or delay operation to carry out next and
//! take the sampled line level back:
//!
//! - [`waiter::LevelWaiter`] polls the line until it is at a wanted level,
//!   up to a ceiling;
//! - [`byte_reader::ByteReader`] reads eight bits, each by one sample at a
//!   fixed distance after the rising edge;
//! - [`decoder::FrameDecoder`] runs a whole read cycle: start pulse,
//!   handshake, five bytes, checksum, conversion;
//! - [`read_loop::ReadLoop`] repeats the cycle at a fixed period.
//!
//! Every machine records, as ghost state, the levels it has observed and the
//! commands it has issued. Its result is proved to be the parse of exactly
//! those observations ([`trace`]), and its commands to be the ones that the
//! protocol prescribes for them ([`script`]). [`simulated`] runs the
//! machines against a line whose levels are written down beforehand, and
//! [`laws`] states what holds of the decoder as a whole.

pub mod byte_reader;
pub mod decoder;
pub mod frame;
pub mod laws;
pub mod read_loop;
pub mod script;
pub mod signal;
pub mod simulated;
pub mod trace;
pub mod waiter;
pub mod waveform;
