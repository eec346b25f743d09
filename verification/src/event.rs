//! Events of the dashboard loop: a key that asks to quit, or a periodic
//! tick, and the rules that turn key presses and elapsed time into them.

use vstd::prelude::*;
use core::time::Duration;

verus! {

/// An event handed to the dashboard loop.
#[derive(Debug, Clone, Copy)]
pub enum Event<I> {
    /// The user asked to leave.
    Input(I),
    /// The tick period has passed.
    Tick,
}

/// Produces key and tick events at a fixed tick rate.
pub struct EventHandler {
    tick_rate: Duration,
}

impl EventHandler {
    /// The period between two ticks.
    pub closed spec fn tick_period(&self) -> Duration {
        self.tick_rate
    }

    /// A handler that ticks every `tick_rate`.
    pub fn new(tick_rate: Duration) -> (handler: Self)
        ensures
            handler.tick_period() == tick_rate,
    {
        Self { tick_rate }
    }

    /// The period between two ticks.
    pub fn tick_rate(&self) -> (rate: Duration)
        ensures
            rate == self.tick_period(),
    {
        self.tick_rate
    }
}

/// Whether a key press asks to quit: `q` alone, or `c` or `q` held with
/// exactly the Control modifier. `key` is the pressed character, `None`
/// for a key that is no character.
pub fn is_quit_key(key: Option<char>, control_only: bool) -> (quit: bool)
    ensures
        quit == (key == Some('q') || (key == Some('c') && control_only)),
{
    match key {
        Some(c) => c == 'q' || (c == 'c' && control_only),
        None => false,
    }
}

/// Whether the tick period has passed, `elapsed_ms` after the last tick.
pub fn tick_due(elapsed_ms: u128, tick_rate_ms: u128) -> (due: bool)
    ensures
        due == (elapsed_ms >= tick_rate_ms),
{
    elapsed_ms >= tick_rate_ms
}

/// How long to wait for a key before the next tick is due: what remains
/// of the period, or nothing once it has passed.
pub fn poll_timeout_ms(elapsed_ms: u128, tick_rate_ms: u128) -> (wait: u128)
    ensures
        wait == (if elapsed_ms <= tick_rate_ms { tick_rate_ms - elapsed_ms } else { 0 }),
{
    if elapsed_ms <= tick_rate_ms {
        tick_rate_ms - elapsed_ms
    } else {
        0
    }
}

/// Whether forwarding events stops after `event`: it stops after the first
/// quit request.
pub fn ends_forwarding<I>(event: &Event<I>) -> (stop: bool)
    ensures
        stop == (event is Input),
{
    match event {
        Event::Input(_) => true,
        Event::Tick => false,
    }
}

} // verus!
