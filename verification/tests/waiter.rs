use dht22::frame::DecodeError;
use dht22::signal::Command;
use dht22::signal::Level;
use dht22::signal::POLL_CEILING;
use dht22::signal::POLL_PAUSE_MICROS;
use dht22::waiter::LevelWaiter;

#[test]
fn timing_constants_of_the_wait() {
    assert_eq!(POLL_CEILING, 10_000);
    assert_eq!(POLL_PAUSE_MICROS, 1);
}

#[test]
fn wait_ends_with_the_first_poll_at_the_target() {
    let mut waiter = LevelWaiter::new(Level::High);
    assert_eq!(waiter.command(), Some(Command::Sample));
    assert_eq!(waiter.result(), None);
    waiter.advance(Level::High);
    assert_eq!(waiter.command(), None);
    assert_eq!(waiter.result(), Some(Ok(())));
}

#[test]
fn wait_for_low_ends_on_low() {
    let mut waiter = LevelWaiter::new(Level::Low);
    waiter.advance(Level::High);
    assert_eq!(waiter.command(), Some(Command::DelayMicros(1)));
    waiter.advance(Level::Low);
    assert_eq!(waiter.command(), Some(Command::Sample));
    waiter.advance(Level::Low);
    assert_eq!(waiter.result(), Some(Ok(())));
}

#[test]
fn missed_poll_is_followed_by_a_pause_of_one_microsecond() {
    let mut waiter = LevelWaiter::new(Level::High);
    waiter.advance(Level::Low);
    assert_eq!(waiter.command(), Some(Command::DelayMicros(1)));
    assert_eq!(waiter.result(), None);
    // The level handed over after a pause is not looked at.
    waiter.advance(Level::High);
    assert_eq!(waiter.command(), Some(Command::Sample));
    assert_eq!(waiter.result(), None);
}

#[test]
fn wait_times_out_after_exactly_the_ceiling() {
    let mut waiter = LevelWaiter::new(Level::High);
    let mut polls = 0u32;
    let mut pauses = 0u32;
    while let Some(command) = waiter.command() {
        match command {
            Command::Sample => polls += 1,
            Command::DelayMicros(1) => pauses += 1,
            other => panic!("unexpected command {:?}", other),
        }
        if polls < 10_000 || command != Command::Sample {
            assert_eq!(waiter.result(), None);
        }
        waiter.advance(Level::Low);
    }
    assert_eq!(polls, 10_000);
    assert_eq!(pauses, 10_000);
    assert_eq!(waiter.result(), Some(Err(DecodeError::Timeout)));
}

#[test]
fn wait_still_succeeds_on_the_last_poll() {
    let mut waiter = LevelWaiter::new(Level::Low);
    for _ in 0..9_999 {
        assert_eq!(waiter.command(), Some(Command::Sample));
        waiter.advance(Level::High);
        assert_eq!(waiter.command(), Some(Command::DelayMicros(1)));
        waiter.advance(Level::High);
    }
    assert_eq!(waiter.command(), Some(Command::Sample));
    waiter.advance(Level::Low);
    assert_eq!(waiter.result(), Some(Ok(())));
}

#[test]
fn finished_wait_stays_finished() {
    let mut reached = LevelWaiter::new(Level::High);
    reached.advance(Level::High);
    reached.advance(Level::Low);
    reached.advance(Level::High);
    assert_eq!(reached.result(), Some(Ok(())));
    assert_eq!(reached.command(), None);

    let mut expired = LevelWaiter::new(Level::High);
    while expired.command().is_some() {
        expired.advance(Level::Low);
    }
    expired.advance(Level::High);
    assert_eq!(expired.result(), Some(Err(DecodeError::Timeout)));
    assert_eq!(expired.command(), None);
}

#[test]
fn pause_lengths_in_microseconds() {
    assert_eq!(Command::DelayMicros(30).micros(), 30);
    assert_eq!(Command::DelayMillis(18).micros(), 18_000);
    assert_eq!(Command::DelayMillis(2000).micros(), 2_000_000);
    assert_eq!(Command::DelayMillis(u32::MAX).micros(), 4_294_967_295_000);
    assert_eq!(Command::DelayMicros(u32::MAX).micros(), 4_294_967_295);
    assert_eq!(Command::Sample.micros(), 0);
    assert_eq!(Command::SetLow.micros(), 0);
    assert_eq!(Command::SetHigh.micros(), 0);
}

#[test]
fn wait_that_times_out_pauses_ten_milliseconds() {
    let mut waiter = LevelWaiter::new(Level::Low);
    let mut micros = 0u64;
    let mut commands = 0u32;
    while let Some(command) = waiter.command() {
        micros += command.micros();
        commands += 1;
        waiter.advance(Level::High);
    }
    assert_eq!(micros, 10_000);
    assert_eq!(commands, 20_000);
}
