//! The shortest run of line levels that carries a frame: every wait finds
//! its level with the first poll.

use vstd::prelude::*;
use crate::frame::RawFrame;
use crate::script::bit_script;
use crate::script::bits_script;
use crate::script::bytes_script;
use crate::script::frame_script;
use crate::script::lemma_bit_script_shift;
use crate::script::lemma_bits_script_shift;
use crate::script::lemma_bits_script_stable;
use crate::script::lemma_bytes_script_shift;
use crate::script::lemma_bytes_script_stable;
use crate::script::missed_polls;
use crate::script::start_script;
use crate::signal::Command;
use crate::signal::Level;
use crate::signal::SAMPLE_OFFSET_MICROS;
use crate::trace::Parsed;
use crate::trace::await_level;
use crate::trace::decode;
use crate::trace::extends;
use crate::trace::lemma_parse_bit_shift;
use crate::trace::lemma_parse_bits_stable;
use crate::trace::lemma_parse_byte_shift;
use crate::trace::lemma_parse_bytes_shift;
use crate::trace::lemma_parse_bytes_stable;
use crate::trace::parse_bit;
use crate::trace::parse_bits;
use crate::trace::parse_byte;
use crate::trace::parse_bytes;
use crate::trace::parse_frame;
use crate::trace::placed;

verus! {

/// Bit `7 - index` of `byte`: the bit that is sent as number `index`.
pub open spec fn bit_of(byte: u8, index: nat) -> bool {
    (byte >> ((7 - index) as u8)) & 1 == 1
}

/// The first `count` bits of `byte` in the order they are sent.
pub open spec fn bits_of(byte: u8, count: nat) -> Seq<bool> {
    Seq::new(count, |i: int| bit_of(byte, i as nat))
}

/// What the line shows for one bit: high for the rising edge, the bit at
/// the sample, low for the falling edge.
pub open spec fn bit_levels(bit: bool) -> Seq<Level> {
    seq![
        Level::High,
        if bit {
            Level::High
        } else {
            Level::Low
        },
        Level::Low,
    ]
}

/// What the line shows for the first `count` bits of `byte`.
pub open spec fn byte_levels(byte: u8, count: nat) -> Seq<Level>
    decreases count,
{
    if count == 0 {
        Seq::empty()
    } else {
        byte_levels(byte, (count - 1) as nat) + bit_levels(bit_of(byte, (count - 1) as nat))
    }
}

/// What the line shows for the first `count` bytes of `bytes`.
pub open spec fn bytes_levels(bytes: Seq<u8>, count: nat) -> Seq<Level>
    decreases count,
{
    if count == 0 {
        Seq::empty()
    } else {
        bytes_levels(bytes, (count - 1) as nat) + byte_levels(bytes[count - 1], 8)
    }
}

/// What the line shows for a whole frame: high and low for the handshake,
/// then the forty bits.
pub open spec fn frame_levels(frame: RawFrame) -> Seq<Level> {
    seq![Level::High, Level::Low] + bytes_levels(frame.bytes(), 5)
}

/// The three levels of a bit are read as that bit.
pub proof fn lemma_bit_levels_parse(bit: bool)
    ensures
        parse_bit(bit_levels(bit), 0) == (Parsed::Done { value: bit, end: 3 }),
{
    let obs = bit_levels(bit);
    assert(obs[0] == Level::High);
    assert(obs[2] == Level::Low);
    assert(await_level(obs, 0, Level::High) == (Parsed::Done { value: (), end: 1 }));
    assert(await_level(obs, 2, Level::Low) == (Parsed::Done { value: (), end: 3 }));
}

/// The levels of `count` bits are three times as many observations.
pub proof fn lemma_byte_levels_len(byte: u8, count: nat)
    ensures
        byte_levels(byte, count).len() == 3 * count,
    decreases count,
{
    if count > 0 {
        lemma_byte_levels_len(byte, (count - 1) as nat);
    }
}

/// The levels of the first `count` bits of a byte are read as those bits.
pub proof fn lemma_byte_levels_parse(byte: u8, count: nat)
    requires
        count <= 8,
    ensures
        parse_bits(byte_levels(byte, count), 0, count) == (Parsed::Done {
            value: bits_of(byte, count),
            end: 3 * count as int,
        }),
    decreases count,
{
    if count == 0 {
        assert(bits_of(byte, 0) =~= Seq::<bool>::empty());
    } else {
        let before = (count - 1) as nat;
        let head = byte_levels(byte, before);
        let bit = bit_of(byte, before);
        let obs = byte_levels(byte, count);
        lemma_byte_levels_parse(byte, before);
        lemma_byte_levels_len(byte, before);
        assert(extends(obs, head));
        lemma_parse_bits_stable(obs, head, 0, before);
        assert(obs.skip(head.len() as int) =~= bit_levels(bit));
        lemma_parse_bit_shift(obs, head.len() as int, 0);
        lemma_bit_levels_parse(bit);
        assert(bits_of(byte, before).push(bit) =~= bits_of(byte, count));
    }
}

/// The part of `byte` that its first `count` bits make up: the upper
/// `count` bits, the others cleared.
pub open spec fn upper_bits(byte: u8, count: nat) -> u8 {
    if count == 0 {
        0
    } else {
        (byte >> ((8 - count) as u8)) << ((8 - count) as u8)
    }
}

/// Putting the first `count` bits of a byte in their places gives the upper
/// `count` bits of the byte.
pub proof fn lemma_placed_bits(byte: u8, count: nat)
    requires
        count <= 8,
    ensures
        placed(bits_of(byte, count)) == upper_bits(byte, count),
    decreases count,
{
    let bits = bits_of(byte, count);
    if count == 0 {
        assert(bits.len() == 0);
    } else {
        let before = (count - 1) as nat;
        let shift = (8 - count) as u8;
        let lower = upper_bits(byte, before);
        let set = bit_of(byte, before);
        lemma_placed_bits(byte, before);
        assert(bits.len() == count);
        assert(bits.drop_last() =~= bits_of(byte, before));
        assert(bits.last() == set);
        assert(((7 - before) as u8) == shift);
        assert(((8 - bits.len()) as u8) == shift);
        assert(placed(bits) == if set {
            lower | (1u8 << shift)
        } else {
            lower
        });
        assert(lower == if shift == 7 {
            0u8
        } else {
            (byte >> ((shift + 1) as u8)) << ((shift + 1) as u8)
        });
        assert((if shift == 7 {
            0u8
        } else {
            (byte >> ((shift + 1) as u8)) << ((shift + 1) as u8)
        }) | (if (byte >> shift) & 1 == 1 {
            1u8 << shift
        } else {
            0u8
        }) == (byte >> shift) << shift) by (bit_vector)
            requires
                shift <= 7,
        ;
        assert(lower | 0u8 == lower) by (bit_vector);
    }
}

/// The levels of a byte are read as that byte.
pub proof fn lemma_byte_round_trip(byte: u8)
    ensures
        byte_levels(byte, 8).len() == 24,
        parse_byte(byte_levels(byte, 8), 0) == (Parsed::Done { value: byte, end: 24 }),
{
    lemma_byte_levels_len(byte, 8);
    lemma_byte_levels_parse(byte, 8);
    lemma_placed_bits(byte, 8);
    assert((byte >> 0u8) << 0u8 == byte) by (bit_vector);
}

/// The levels of `count` bytes are twenty-four times as many observations.
pub proof fn lemma_bytes_levels_len(bytes: Seq<u8>, count: nat)
    ensures
        bytes_levels(bytes, count).len() == 24 * count,
    decreases count,
{
    if count > 0 {
        lemma_bytes_levels_len(bytes, (count - 1) as nat);
        lemma_byte_levels_len(bytes[count - 1], 8);
    }
}

/// The levels of the first `count` bytes are read as those bytes.
pub proof fn lemma_bytes_levels_parse(bytes: Seq<u8>, count: nat)
    requires
        count <= bytes.len(),
    ensures
        parse_bytes(bytes_levels(bytes, count), 0, count) == (Parsed::Done {
            value: bytes.take(count as int),
            end: 24 * count as int,
        }),
    decreases count,
{
    if count == 0 {
        assert(bytes.take(0) =~= Seq::<u8>::empty());
    } else {
        let before = (count - 1) as nat;
        let head = bytes_levels(bytes, before);
        let byte = bytes[count - 1];
        let obs = bytes_levels(bytes, count);
        lemma_bytes_levels_parse(bytes, before);
        lemma_bytes_levels_len(bytes, before);
        assert(extends(obs, head));
        lemma_parse_bytes_stable(obs, head, 0, before);
        assert(obs.skip(head.len() as int) =~= byte_levels(byte, 8));
        lemma_parse_byte_shift(obs, head.len() as int, 0);
        lemma_byte_round_trip(byte);
        assert(bytes.take(before as int).push(byte) =~= bytes.take(count as int));
    }
}

/// A read cycle that observes the levels of a frame reads that frame, uses
/// all 122 observations, and comes to the outcome of the frame: its reading
/// when the checksum byte is the sum of the data bytes, `ChecksumMismatch`
/// when it is not.
pub proof fn lemma_frame_round_trip(frame: RawFrame)
    ensures
        frame_levels(frame).len() == 122,
        parse_frame(frame_levels(frame)) == (Parsed::Done { value: frame, end: 122 }),
        decode(frame_levels(frame)) == Some(frame.outcome()),
{
    let obs = frame_levels(frame);
    let bytes = frame.bytes();
    let body = bytes_levels(bytes, 5);
    lemma_bytes_levels_len(bytes, 5);
    lemma_bytes_levels_parse(bytes, 5);
    assert(obs[0] == Level::High);
    assert(obs[1] == Level::Low);
    assert(await_level(obs, 0, Level::High) == (Parsed::Done { value: (), end: 1 }));
    assert(await_level(obs, 1, Level::Low) == (Parsed::Done { value: (), end: 2 }));
    assert(obs.skip(2) =~= body);
    lemma_parse_bytes_shift(obs, 2, 0, 5);
    assert(bytes.take(5) =~= bytes);
    assert(RawFrame::of(bytes) == frame);
}

/// The commands of a bit whose edges are found with the first poll: the
/// poll for the rising edge, the pause, the sample, and the poll for the
/// falling edge.
pub open spec fn prompt_bit_script() -> Seq<Command> {
    seq![
        Command::Sample,
        Command::DelayMicros(SAMPLE_OFFSET_MICROS),
        Command::Sample,
        Command::Sample,
    ]
}

/// The commands of `count` bits in a row whose edges are found with the
/// first poll.
pub open spec fn prompt_bits_script(count: nat) -> Seq<Command>
    decreases count,
{
    if count == 0 {
        Seq::empty()
    } else {
        prompt_bits_script((count - 1) as nat) + prompt_bit_script()
    }
}

/// The commands of a cycle in which every wait finds its level with the
/// first poll: the start pulse, the two polls of the handshake, and forty
/// bits.
pub open spec fn prompt_frame_script() -> Seq<Command> {
    start_script() + seq![Command::Sample, Command::Sample] + prompt_bits_script(40)
}

/// The three levels of a bit are read with the four commands of a prompt
/// bit.
pub proof fn lemma_bit_levels_script(bit: bool)
    ensures
        bit_script(bit_levels(bit), 0) == prompt_bit_script(),
{
    let obs = bit_levels(bit);
    assert(obs[0] == Level::High);
    assert(obs[2] == Level::Low);
    assert(await_level(obs, 0, Level::High) == (Parsed::Done { value: (), end: 1 }));
    assert(await_level(obs, 2, Level::Low) == (Parsed::Done { value: (), end: 3 }));
    assert(missed_polls(0).push(Command::Sample) =~= seq![Command::Sample]);
    assert(bit_script(obs, 0) =~= prompt_bit_script());
}

/// The levels of the first `count` bits of a byte are read with the
/// commands of as many prompt bits.
pub proof fn lemma_byte_levels_script(byte: u8, count: nat)
    requires
        count <= 8,
    ensures
        bits_script(byte_levels(byte, count), 0, count) == prompt_bits_script(count),
    decreases count,
{
    if count > 0 {
        let before = (count - 1) as nat;
        let head = byte_levels(byte, before);
        let bit = bit_of(byte, before);
        let obs = byte_levels(byte, count);
        lemma_byte_levels_script(byte, before);
        lemma_byte_levels_parse(byte, before);
        lemma_byte_levels_len(byte, before);
        assert(extends(obs, head));
        lemma_parse_bits_stable(obs, head, 0, before);
        lemma_bits_script_stable(obs, head, 0, before);
        assert(obs.skip(head.len() as int) =~= bit_levels(bit));
        lemma_bit_script_shift(obs, head.len() as int, 0);
        lemma_bit_levels_script(bit);
    }
}

/// Prompt bits add up.
pub proof fn lemma_prompt_bits_add(first: nat, second: nat)
    ensures
        prompt_bits_script(first + second) == prompt_bits_script(first) + prompt_bits_script(
            second,
        ),
    decreases second,
{
    if second == 0 {
        assert(prompt_bits_script(first) + prompt_bits_script(0) =~= prompt_bits_script(first));
    } else {
        lemma_prompt_bits_add(first, (second - 1) as nat);
        assert(prompt_bits_script(first + second) =~= prompt_bits_script(first)
            + prompt_bits_script(second));
    }
}

/// The levels of the first `count` bytes are read with the commands of
/// eight prompt bits each.
pub proof fn lemma_bytes_levels_script(bytes: Seq<u8>, count: nat)
    requires
        count <= bytes.len(),
    ensures
        bytes_script(bytes_levels(bytes, count), 0, count) == prompt_bits_script(8 * count),
    decreases count,
{
    if count > 0 {
        let before = (count - 1) as nat;
        let head = bytes_levels(bytes, before);
        let byte = bytes[count - 1];
        let obs = bytes_levels(bytes, count);
        lemma_bytes_levels_script(bytes, before);
        lemma_bytes_levels_parse(bytes, before);
        lemma_bytes_levels_len(bytes, before);
        assert(extends(obs, head));
        lemma_parse_bytes_stable(obs, head, 0, before);
        lemma_bytes_script_stable(obs, head, 0, before);
        assert(obs.skip(head.len() as int) =~= byte_levels(byte, 8));
        lemma_bits_script_shift(obs, head.len() as int, 0, 8);
        lemma_byte_levels_script(byte, 8);
        lemma_prompt_bits_add(8 * before, 8);
    }
}

/// A read cycle that observes the levels of a frame issues the commands of
/// a prompt cycle: the start pulse, two polls, and forty times poll, pause,
/// sample, poll.
pub proof fn lemma_frame_levels_script(frame: RawFrame)
    ensures
        frame_script(frame_levels(frame)) == prompt_frame_script(),
{
    let obs = frame_levels(frame);
    let bytes = frame.bytes();
    let body = bytes_levels(bytes, 5);
    lemma_bytes_levels_len(bytes, 5);
    lemma_bytes_levels_script(bytes, 5);
    assert(obs[0] == Level::High);
    assert(obs[1] == Level::Low);
    assert(await_level(obs, 0, Level::High) == (Parsed::Done { value: (), end: 1 }));
    assert(await_level(obs, 1, Level::Low) == (Parsed::Done { value: (), end: 2 }));
    assert(obs.skip(2) =~= body);
    lemma_bytes_script_shift(obs, 2, 0, 5);
    assert(missed_polls(0).push(Command::Sample) =~= seq![Command::Sample]);
    assert(frame_script(obs) =~= prompt_frame_script());
}

/// Appends the levels of one byte.
fn push_byte(levels: &mut Vec<Level>, byte: u8)
    ensures
        final(levels)@ == old(levels)@ + byte_levels(byte, 8),
{
    let mut index: u8 = 0;
    assert(levels@ =~= old(levels)@ + byte_levels(byte, 0));
    while index < 8
        invariant
            index <= 8,
            levels@ == old(levels)@ + byte_levels(byte, index as nat),
        decreases 8 - index,
    {
        let bit = (byte >> (7 - index)) & 1 == 1;
        levels.push(Level::High);
        levels.push(
            if bit {
                Level::High
            } else {
                Level::Low
            },
        );
        levels.push(Level::Low);
        index = index + 1;
        assert(levels@ =~= old(levels)@ + byte_levels(byte, index as nat));
    }
}

/// The levels that a line shows to a read cycle when the sensor sends
/// `frame` and every wait finds its level with the first poll.
pub fn levels_of_frame(frame: &RawFrame) -> (levels: Vec<Level>)
    ensures
        levels@ == frame_levels(*frame),
        levels@.len() == 122,
        decode(levels@) == Some(frame.outcome()),
        frame_script(levels@) == prompt_frame_script(),
{
    let ghost bytes = frame.bytes();
    let mut levels: Vec<Level> = Vec::new();
    levels.push(Level::High);
    levels.push(Level::Low);
    assert(levels@ =~= seq![Level::High, Level::Low] + bytes_levels(bytes, 0));
    push_byte(&mut levels, frame.humidity_high);
    assert(levels@ =~= seq![Level::High, Level::Low] + bytes_levels(bytes, 1));
    push_byte(&mut levels, frame.humidity_low);
    assert(levels@ =~= seq![Level::High, Level::Low] + bytes_levels(bytes, 2));
    push_byte(&mut levels, frame.temperature_high);
    assert(levels@ =~= seq![Level::High, Level::Low] + bytes_levels(bytes, 3));
    push_byte(&mut levels, frame.temperature_low);
    assert(levels@ =~= seq![Level::High, Level::Low] + bytes_levels(bytes, 4));
    push_byte(&mut levels, frame.checksum);
    assert(levels@ =~= seq![Level::High, Level::Low] + bytes_levels(bytes, 5));
    proof {
        lemma_frame_round_trip(*frame);
        lemma_frame_levels_script(*frame);
    }
    levels
}

} // verus!
