//! What a sequence of observed line levels means.
//!
//! Each function reads the observations from a position onwards, the way the
//! protocol prescribes, and says where the reading ends. Nothing here runs:
//! these are the definitions that the state machines are proved against.

use vstd::prelude::*;
use crate::frame::DecodeError;
use crate::frame::RawFrame;
use crate::frame::SensorReading;
use crate::signal::Level;
use crate::signal::POLL_CEILING;

verus! {

/// Result of reading a protocol element out of a sequence of observations.
pub enum Parsed<T> {
    /// The element was read; `end` is the position after its last sample.
    Done { value: T, end: int },
    /// A wait used up its polls; `end` is the position after the last poll.
    TimedOut { end: int },
    /// The observations stop before the element is complete.
    Pending,
}

impl<T> Parsed<T> {
    /// The reading that stands for a result that was reached at `end`: done
    /// with the value of an `Ok`, timed out for an `Err`.
    pub open spec fn settled(result: Result<T, DecodeError>, end: int) -> Parsed<T> {
        match result {
            Ok(value) => Parsed::Done { value, end },
            Err(_) => Parsed::TimedOut { end },
        }
    }

    /// The same result with every position moved up by `by`.
    pub open spec fn shifted(self, by: int) -> Parsed<T> {
        match self {
            Parsed::Done { value, end } => Parsed::Done { value, end: end + by },
            Parsed::TimedOut { end } => Parsed::TimedOut { end: end + by },
            Parsed::Pending => Parsed::Pending,
        }
    }
}

/// None of the `count` observations from position `from` on is at `target`.
pub open spec fn stays_away(obs: Seq<Level>, from: int, count: int, target: Level) -> bool {
    forall|j: int| from <= j < from + count ==> #[trigger] obs[j] != target
}

/// `short` is an initial part of `long`.
pub open spec fn extends(long: Seq<Level>, short: Seq<Level>) -> bool {
    &&& short.len() <= long.len()
    &&& forall|i: int| 0 <= i < short.len() ==> #[trigger] long[i] == short[i]
}

/// A wait for `target` that may poll `budget` times, starting at `from`.
///
/// It is done with the first observation at `target`, and times out when
/// `budget` observations in a row are away from it.
pub open spec fn scan(obs: Seq<Level>, from: int, target: Level, budget: nat) -> Parsed<()>
    decreases budget,
{
    if budget == 0 {
        Parsed::TimedOut { end: from }
    } else if from < 0 || from >= obs.len() {
        Parsed::Pending
    } else if obs[from] == target {
        Parsed::Done { value: (), end: from + 1 }
    } else {
        scan(obs, from + 1, target, (budget - 1) as nat)
    }
}

/// A wait for `target` with the protocol's poll ceiling.
pub open spec fn await_level(obs: Seq<Level>, from: int, target: Level) -> Parsed<()> {
    scan(obs, from, target, POLL_CEILING as nat)
}

/// A wait is done at `end` when the observation before `end` is the first
/// one at `target` and lies within the budget.
pub proof fn lemma_scan_reaches(obs: Seq<Level>, from: int, target: Level, budget: nat, end: int)
    requires
        0 <= from < end <= obs.len(),
        end - from <= budget,
        obs[end - 1] == target,
        stays_away(obs, from, end - 1 - from, target),
    ensures
        scan(obs, from, target, budget) == (Parsed::Done { value: (), end }),
    decreases budget,
{
    if obs[from] == target {
        assert(from == end - 1) by {
            if from < end - 1 {
                assert(obs[from] != target);
            }
        }
    } else {
        lemma_scan_reaches(obs, from + 1, target, (budget - 1) as nat, end);
    }
}

/// A wait times out when all of its `budget` observations are away from
/// `target`.
pub proof fn lemma_scan_expires(obs: Seq<Level>, from: int, target: Level, budget: nat)
    requires
        0 <= from,
        from + budget <= obs.len(),
        stays_away(obs, from, budget as int, target),
    ensures
        scan(obs, from, target, budget) == (Parsed::<()>::TimedOut { end: from + budget }),
    decreases budget,
{
    if budget > 0 {
        assert(obs[from] != target);
        lemma_scan_expires(obs, from + 1, target, (budget - 1) as nat);
    }
}

/// What each result of a wait says about the observations.
pub proof fn lemma_scan_meaning(obs: Seq<Level>, from: int, target: Level, budget: nat)
    requires
        0 <= from,
    ensures
        match scan(obs, from, target, budget) {
            Parsed::Done { end, .. } => {
                &&& from < end <= from + budget
                &&& end <= obs.len()
                &&& obs[end - 1] == target
                &&& stays_away(obs, from, end - 1 - from, target)
            },
            Parsed::TimedOut { end } => {
                &&& end == from + budget
                &&& budget > 0 ==> end <= obs.len()
                &&& stays_away(obs, from, budget as int, target)
            },
            Parsed::Pending => {
                &&& budget > 0
                &&& obs.len() < from + budget
                &&& stays_away(obs, from, obs.len() - from, target)
            },
        },
    decreases budget,
{
    if budget > 0 && from < obs.len() && obs[from] != target {
        lemma_scan_meaning(obs, from + 1, target, (budget - 1) as nat);
    }
}

/// Further observations do not change a wait that is already decided.
pub proof fn lemma_scan_stable(long: Seq<Level>, short: Seq<Level>, from: int, target: Level, budget: nat)
    requires
        0 <= from,
        extends(long, short),
        !(scan(short, from, target, budget) is Pending),
    ensures
        scan(long, from, target, budget) == scan(short, from, target, budget),
    decreases budget,
{
    if budget > 0 && from < short.len() && short[from] != target {
        assert(long[from] == short[from]);
        lemma_scan_stable(long, short, from + 1, target, (budget - 1) as nat);
    } else if budget > 0 && from < short.len() {
        assert(long[from] == short[from]);
    }
}

/// One bit: a wait for the rising edge, the sample that decides the bit, and
/// a wait for the line to fall again. A high sample is a one.
pub open spec fn parse_bit(obs: Seq<Level>, from: int) -> Parsed<bool> {
    match await_level(obs, from, Level::High) {
        Parsed::Done { end: rise, .. } => if rise >= obs.len() {
            Parsed::Pending
        } else {
            match await_level(obs, rise + 1, Level::Low) {
                Parsed::Done { end, .. } => Parsed::Done { value: obs[rise] == Level::High, end },
                Parsed::TimedOut { end } => Parsed::TimedOut { end },
                Parsed::Pending => Parsed::Pending,
            }
        },
        Parsed::TimedOut { end } => Parsed::TimedOut { end },
        Parsed::Pending => Parsed::Pending,
    }
}

/// `count` bits one after the other, in the order they arrive.
pub open spec fn parse_bits(obs: Seq<Level>, from: int, count: nat) -> Parsed<Seq<bool>>
    decreases count,
{
    if count == 0 {
        Parsed::Done { value: Seq::empty(), end: from }
    } else {
        match parse_bits(obs, from, (count - 1) as nat) {
            Parsed::Done { value: bits, end: mid } => match parse_bit(obs, mid) {
                Parsed::Done { value: bit, end } => Parsed::Done { value: bits.push(bit), end },
                Parsed::TimedOut { end } => Parsed::TimedOut { end },
                Parsed::Pending => Parsed::Pending,
            },
            Parsed::TimedOut { end } => Parsed::TimedOut { end },
            Parsed::Pending => Parsed::Pending,
        }
    }
}

/// The byte in which bit `7 - n` is set exactly when `bits[n]` is a one: the
/// bit that arrives first is the most significant. Defined for up to eight
/// bits.
pub open spec fn placed(bits: Seq<bool>) -> u8
    decreases bits.len(),
{
    if bits.len() == 0 || bits.len() > 8 {
        0
    } else if bits.last() {
        placed(bits.drop_last()) | (1u8 << ((8 - bits.len()) as u8))
    } else {
        placed(bits.drop_last())
    }
}

/// One byte: eight bits, most significant first.
pub open spec fn parse_byte(obs: Seq<Level>, from: int) -> Parsed<u8> {
    match parse_bits(obs, from, 8) {
        Parsed::Done { value: bits, end } => Parsed::Done { value: placed(bits), end },
        Parsed::TimedOut { end } => Parsed::TimedOut { end },
        Parsed::Pending => Parsed::Pending,
    }
}

/// `count` bytes one after the other, in the order they arrive.
pub open spec fn parse_bytes(obs: Seq<Level>, from: int, count: nat) -> Parsed<Seq<u8>>
    decreases count,
{
    if count == 0 {
        Parsed::Done { value: Seq::empty(), end: from }
    } else {
        match parse_bytes(obs, from, (count - 1) as nat) {
            Parsed::Done { value: bytes, end: mid } => match parse_byte(obs, mid) {
                Parsed::Done { value: byte, end } => Parsed::Done { value: bytes.push(byte), end },
                Parsed::TimedOut { end } => Parsed::TimedOut { end },
                Parsed::Pending => Parsed::Pending,
            },
            Parsed::TimedOut { end } => Parsed::TimedOut { end },
            Parsed::Pending => Parsed::Pending,
        }
    }
}

/// The sensor's answer to a start pulse: it lets the line go high, pulls it
/// low, and sends five bytes.
pub open spec fn parse_frame(obs: Seq<Level>) -> Parsed<RawFrame> {
    match await_level(obs, 0, Level::High) {
        Parsed::Done { end: high, .. } => match await_level(obs, high, Level::Low) {
            Parsed::Done { end: low, .. } => match parse_bytes(obs, low, 5) {
                Parsed::Done { value: bytes, end } => Parsed::Done {
                    value: RawFrame::of(bytes),
                    end,
                },
                Parsed::TimedOut { end } => Parsed::TimedOut { end },
                Parsed::Pending => Parsed::Pending,
            },
            Parsed::TimedOut { end } => Parsed::TimedOut { end },
            Parsed::Pending => Parsed::Pending,
        },
        Parsed::TimedOut { end } => Parsed::TimedOut { end },
        Parsed::Pending => Parsed::Pending,
    }
}

/// What a read cycle comes to that observes exactly `obs`: the reading of
/// an intact frame, `ChecksumMismatch` for any other frame, `Timeout` when a
/// wait runs out. `None` when `obs` is not what one whole cycle observes,
/// because it stops short or goes on after the cycle has ended.
pub open spec fn decode(obs: Seq<Level>) -> Option<Result<SensorReading, DecodeError>> {
    match parse_frame(obs) {
        Parsed::Done { value: frame, end } => if end == obs.len() {
            Some(frame.outcome())
        } else {
            None
        },
        Parsed::TimedOut { end } => if end == obs.len() {
            Some(Err(DecodeError::Timeout))
        } else {
            None
        },
        Parsed::Pending => None,
    }
}

/// Further observations do not change a bit that is already decided.
pub proof fn lemma_parse_bit_stable(long: Seq<Level>, short: Seq<Level>, from: int)
    requires
        0 <= from,
        extends(long, short),
        !(parse_bit(short, from) is Pending),
    ensures
        parse_bit(long, from) == parse_bit(short, from),
{
    lemma_scan_meaning(short, from, Level::High, POLL_CEILING as nat);
    lemma_scan_stable(long, short, from, Level::High, POLL_CEILING as nat);
    if let Parsed::Done { end: rise, .. } = await_level(short, from, Level::High) {
        assert(long[rise] == short[rise]);
        lemma_scan_stable(long, short, rise + 1, Level::Low, POLL_CEILING as nat);
    }
}

/// A decided bit ends after its start and within the observations.
pub proof fn lemma_parse_bit_bounds(obs: Seq<Level>, from: int)
    requires
        0 <= from,
    ensures
        parse_bit(obs, from) matches Parsed::Done { end, .. } ==> from + 3 <= end <= obs.len(),
        parse_bit(obs, from) matches Parsed::TimedOut { end } ==> from + POLL_CEILING <= end
            <= obs.len(),
{
    lemma_scan_meaning(obs, from, Level::High, POLL_CEILING as nat);
    if let Parsed::Done { end: rise, .. } = await_level(obs, from, Level::High) {
        lemma_scan_meaning(obs, rise + 1, Level::Low, POLL_CEILING as nat);
    }
}

/// Decided bits end within the observations.
pub proof fn lemma_parse_bits_bounds(obs: Seq<Level>, from: int, count: nat)
    requires
        0 <= from <= obs.len(),
    ensures
        parse_bits(obs, from, count) matches Parsed::Done { value, end } ==> from <= end
            <= obs.len() && value.len() == count,
        parse_bits(obs, from, count) matches Parsed::TimedOut { end } ==> from + POLL_CEILING <= end
            <= obs.len(),
    decreases count,
{
    if count > 0 {
        lemma_parse_bits_bounds(obs, from, (count - 1) as nat);
        if let Parsed::Done { end: mid, .. } = parse_bits(obs, from, (count - 1) as nat) {
            lemma_parse_bit_bounds(obs, mid);
        }
    }
}

/// Further observations do not change bits that are already decided.
pub proof fn lemma_parse_bits_stable(long: Seq<Level>, short: Seq<Level>, from: int, count: nat)
    requires
        0 <= from <= short.len(),
        extends(long, short),
        !(parse_bits(short, from, count) is Pending),
    ensures
        parse_bits(long, from, count) == parse_bits(short, from, count),
    decreases count,
{
    if count > 0 {
        lemma_parse_bits_stable(long, short, from, (count - 1) as nat);
        lemma_parse_bits_bounds(short, from, (count - 1) as nat);
        if let Parsed::Done { end: mid, .. } = parse_bits(short, from, (count - 1) as nat) {
            lemma_parse_bit_stable(long, short, mid);
        }
    }
}

/// When a wait runs out in the bit after `done` good ones, reading any
/// larger number of bits times out at the same place.
pub proof fn lemma_parse_bits_cut_short(obs: Seq<Level>, from: int, done: nat, count: nat)
    requires
        done < count,
        parse_bits(obs, from, done) is Done,
        parse_bit(obs, parse_bits(obs, from, done)->Done_end) is TimedOut,
    ensures
        parse_bits(obs, from, count) == (Parsed::<Seq<bool>>::TimedOut {
            end: parse_bit(obs, parse_bits(obs, from, done)->Done_end)->TimedOut_end,
        }),
    decreases count,
{
    if count - 1 > done {
        lemma_parse_bits_cut_short(obs, from, done, (count - 1) as nat);
    }
}

/// A decided byte ends within the observations.
pub proof fn lemma_parse_byte_bounds(obs: Seq<Level>, from: int)
    requires
        0 <= from <= obs.len(),
    ensures
        parse_byte(obs, from) matches Parsed::Done { end, .. } ==> from <= end <= obs.len(),
        parse_byte(obs, from) matches Parsed::TimedOut { end } ==> from + POLL_CEILING <= end
            <= obs.len(),
{
    lemma_parse_bits_bounds(obs, from, 8);
}

/// Further observations do not change a byte that is already decided.
pub proof fn lemma_parse_byte_stable(long: Seq<Level>, short: Seq<Level>, from: int)
    requires
        0 <= from <= short.len(),
        extends(long, short),
        !(parse_byte(short, from) is Pending),
    ensures
        parse_byte(long, from) == parse_byte(short, from),
{
    lemma_parse_bits_stable(long, short, from, 8);
}

/// Decided bytes end within the observations.
pub proof fn lemma_parse_bytes_bounds(obs: Seq<Level>, from: int, count: nat)
    requires
        0 <= from <= obs.len(),
    ensures
        parse_bytes(obs, from, count) matches Parsed::Done { value, end } ==> from <= end
            <= obs.len() && value.len() == count,
        parse_bytes(obs, from, count) matches Parsed::TimedOut { end } ==> from + POLL_CEILING
            <= end <= obs.len(),
    decreases count,
{
    if count > 0 {
        lemma_parse_bytes_bounds(obs, from, (count - 1) as nat);
        if let Parsed::Done { end: mid, .. } = parse_bytes(obs, from, (count - 1) as nat) {
            lemma_parse_byte_bounds(obs, mid);
        }
    }
}

/// Further observations do not change bytes that are already decided.
pub proof fn lemma_parse_bytes_stable(long: Seq<Level>, short: Seq<Level>, from: int, count: nat)
    requires
        0 <= from <= short.len(),
        extends(long, short),
        !(parse_bytes(short, from, count) is Pending),
    ensures
        parse_bytes(long, from, count) == parse_bytes(short, from, count),
    decreases count,
{
    if count > 0 {
        lemma_parse_bytes_stable(long, short, from, (count - 1) as nat);
        lemma_parse_bytes_bounds(short, from, (count - 1) as nat);
        if let Parsed::Done { end: mid, .. } = parse_bytes(short, from, (count - 1) as nat) {
            lemma_parse_byte_stable(long, short, mid);
        }
    }
}

/// When a wait runs out in the byte after `done` good ones, reading any
/// larger number of bytes times out at the same place.
pub proof fn lemma_parse_bytes_cut_short(obs: Seq<Level>, from: int, done: nat, count: nat)
    requires
        done < count,
        parse_bytes(obs, from, done) is Done,
        parse_byte(obs, parse_bytes(obs, from, done)->Done_end) is TimedOut,
    ensures
        parse_bytes(obs, from, count) == (Parsed::<Seq<u8>>::TimedOut {
            end: parse_byte(obs, parse_bytes(obs, from, done)->Done_end)->TimedOut_end,
        }),
    decreases count,
{
    if count - 1 > done {
        lemma_parse_bytes_cut_short(obs, from, done, (count - 1) as nat);
    }
}

/// Further observations do not change a frame that is already decided.
pub proof fn lemma_parse_frame_stable(long: Seq<Level>, short: Seq<Level>)
    requires
        extends(long, short),
        !(parse_frame(short) is Pending),
    ensures
        parse_frame(long) == parse_frame(short),
{
    lemma_scan_meaning(short, 0, Level::High, POLL_CEILING as nat);
    lemma_scan_stable(long, short, 0, Level::High, POLL_CEILING as nat);
    if let Parsed::Done { end: high, .. } = await_level(short, 0, Level::High) {
        lemma_scan_meaning(short, high, Level::Low, POLL_CEILING as nat);
        lemma_scan_stable(long, short, high, Level::Low, POLL_CEILING as nat);
        if let Parsed::Done { end: low, .. } = await_level(short, high, Level::Low) {
            lemma_parse_bytes_stable(long, short, low, 5);
        }
    }
}

/// A wait over the observations from `skipped` on is the same wait over all
/// of them, begun `skipped` positions later.
pub proof fn lemma_scan_shift(obs: Seq<Level>, skipped: int, from: int, target: Level, budget: nat)
    requires
        0 <= skipped <= obs.len(),
        0 <= from,
    ensures
        scan(obs, skipped + from, target, budget) == scan(
            obs.skip(skipped),
            from,
            target,
            budget,
        ).shifted(skipped),
    decreases budget,
{
    let part = obs.skip(skipped);
    if budget > 0 && from < part.len() {
        assert(part[from] == obs[skipped + from]);
        if part[from] != target {
            lemma_scan_shift(obs, skipped, from + 1, target, (budget - 1) as nat);
        }
    }
}

/// A bit read from the observations from `skipped` on is the same bit read
/// from all of them, begun `skipped` positions later.
pub proof fn lemma_parse_bit_shift(obs: Seq<Level>, skipped: int, from: int)
    requires
        0 <= skipped <= obs.len(),
        0 <= from,
    ensures
        parse_bit(obs, skipped + from) == parse_bit(obs.skip(skipped), from).shifted(skipped),
{
    let part = obs.skip(skipped);
    lemma_scan_shift(obs, skipped, from, Level::High, POLL_CEILING as nat);
    lemma_scan_meaning(part, from, Level::High, POLL_CEILING as nat);
    if let Parsed::Done { end: rise, .. } = await_level(part, from, Level::High) {
        if rise < part.len() {
            assert(part[rise] == obs[skipped + rise]);
            lemma_scan_shift(obs, skipped, rise + 1, Level::Low, POLL_CEILING as nat);
        }
    }
}

/// Bits read from the observations from `skipped` on are the same bits read
/// from all of them, begun `skipped` positions later.
pub proof fn lemma_parse_bits_shift(obs: Seq<Level>, skipped: int, from: int, count: nat)
    requires
        0 <= skipped <= obs.len(),
        0 <= from <= obs.len() - skipped,
    ensures
        parse_bits(obs, skipped + from, count) == parse_bits(obs.skip(skipped), from, count).shifted(
            skipped,
        ),
    decreases count,
{
    if count > 0 {
        let part = obs.skip(skipped);
        lemma_parse_bits_shift(obs, skipped, from, (count - 1) as nat);
        lemma_parse_bits_bounds(part, from, (count - 1) as nat);
        if let Parsed::Done { end: mid, .. } = parse_bits(part, from, (count - 1) as nat) {
            lemma_parse_bit_shift(obs, skipped, mid);
        }
    }
}

/// A byte read from the observations from `skipped` on is the same byte read
/// from all of them, begun `skipped` positions later.
pub proof fn lemma_parse_byte_shift(obs: Seq<Level>, skipped: int, from: int)
    requires
        0 <= skipped <= obs.len(),
        0 <= from <= obs.len() - skipped,
    ensures
        parse_byte(obs, skipped + from) == parse_byte(obs.skip(skipped), from).shifted(skipped),
{
    lemma_parse_bits_shift(obs, skipped, from, 8);
}

/// Bytes read from the observations from `skipped` on are the same bytes
/// read from all of them, begun `skipped` positions later.
pub proof fn lemma_parse_bytes_shift(obs: Seq<Level>, skipped: int, from: int, count: nat)
    requires
        0 <= skipped <= obs.len(),
        0 <= from <= obs.len() - skipped,
    ensures
        parse_bytes(obs, skipped + from, count) == parse_bytes(
            obs.skip(skipped),
            from,
            count,
        ).shifted(skipped),
    decreases count,
{
    if count > 0 {
        let part = obs.skip(skipped);
        lemma_parse_bytes_shift(obs, skipped, from, (count - 1) as nat);
        lemma_parse_bytes_bounds(part, from, (count - 1) as nat);
        if let Parsed::Done { end: mid, .. } = parse_bytes(part, from, (count - 1) as nat) {
            lemma_parse_byte_shift(obs, skipped, mid);
        }
    }
}

/// A wait that began `POLL_CEILING` observations before `end` ran out at
/// `end`.
pub open spec fn wait_ran_out_at(obs: Seq<Level>, end: int) -> bool {
    exists|target: Level|
        end >= POLL_CEILING && #[trigger] await_level(obs, end - POLL_CEILING, target) == (
        Parsed::<()>::TimedOut { end })
}

/// A bit times out only where one of its two waits runs out.
pub proof fn lemma_parse_bit_timeout(obs: Seq<Level>, from: int)
    requires
        0 <= from,
    ensures
        parse_bit(obs, from) matches Parsed::TimedOut { end } ==> wait_ran_out_at(obs, end),
{
    lemma_scan_meaning(obs, from, Level::High, POLL_CEILING as nat);
    match await_level(obs, from, Level::High) {
        Parsed::Done { end: rise, .. } => {
            lemma_scan_meaning(obs, rise + 1, Level::Low, POLL_CEILING as nat);
            if let Parsed::TimedOut { end } = await_level(obs, rise + 1, Level::Low) {
                assert(await_level(obs, end - POLL_CEILING, Level::Low) == (Parsed::<
                    (),
                >::TimedOut { end }));
            }
        },
        Parsed::TimedOut { end } => {
            assert(await_level(obs, end - POLL_CEILING, Level::High) == (Parsed::<()>::TimedOut {
                end,
            }));
        },
        Parsed::Pending => {},
    }
}

/// Bits time out only where a wait runs out.
pub proof fn lemma_parse_bits_timeout(obs: Seq<Level>, from: int, count: nat)
    requires
        0 <= from <= obs.len(),
    ensures
        parse_bits(obs, from, count) matches Parsed::TimedOut { end } ==> wait_ran_out_at(
            obs,
            end,
        ),
    decreases count,
{
    if count > 0 {
        lemma_parse_bits_timeout(obs, from, (count - 1) as nat);
        lemma_parse_bits_bounds(obs, from, (count - 1) as nat);
        if let Parsed::Done { end: mid, .. } = parse_bits(obs, from, (count - 1) as nat) {
            lemma_parse_bit_timeout(obs, mid);
        }
    }
}

/// Bytes time out only where a wait runs out.
pub proof fn lemma_parse_bytes_timeout(obs: Seq<Level>, from: int, count: nat)
    requires
        0 <= from <= obs.len(),
    ensures
        parse_bytes(obs, from, count) matches Parsed::TimedOut { end } ==> wait_ran_out_at(
            obs,
            end,
        ),
    decreases count,
{
    if count > 0 {
        lemma_parse_bytes_timeout(obs, from, (count - 1) as nat);
        lemma_parse_bytes_bounds(obs, from, (count - 1) as nat);
        if let Parsed::Done { end: mid, .. } = parse_bytes(obs, from, (count - 1) as nat) {
            lemma_parse_bits_timeout(obs, mid, 8);
        }
    }
}

/// A frame times out only where a wait runs out.
pub proof fn lemma_parse_frame_timeout(obs: Seq<Level>)
    ensures
        parse_frame(obs) matches Parsed::TimedOut { end } ==> wait_ran_out_at(obs, end),
{
    lemma_scan_meaning(obs, 0, Level::High, POLL_CEILING as nat);
    match await_level(obs, 0, Level::High) {
        Parsed::Done { end: high, .. } => {
            lemma_scan_meaning(obs, high, Level::Low, POLL_CEILING as nat);
            match await_level(obs, high, Level::Low) {
                Parsed::Done { end: low, .. } => {
                    lemma_parse_bytes_timeout(obs, low, 5);
                },
                Parsed::TimedOut { end } => {
                    assert(await_level(obs, end - POLL_CEILING, Level::Low) == (Parsed::<
                        (),
                    >::TimedOut { end }));
                },
                Parsed::Pending => {},
            }
        },
        Parsed::TimedOut { end } => {
            assert(await_level(obs, end - POLL_CEILING, Level::High) == (Parsed::<()>::TimedOut {
                end,
            }));
        },
        Parsed::Pending => {},
    }
}

} // verus!
