//! Chaos engineering: controlled faults injected to test the fleet's
//! resilience. Every fault is off unless the caller's runtime switch is on
//! and the fault is enabled in the configuration; then it strikes with its
//! configured rate, in parts per million.
use vstd::prelude::*;
use crate::random::{thread_rng, gen_range_inclusive};

verus! {

/// Master switch of chaos in the configuration.
pub const ENABLED: bool = false;
pub const PACKET_LOSS_ENABLED: bool = true;
/// Rate of dropped outgoing messages, parts per million.
pub const PACKET_LOSS_RATE_PPM: u64 = 50000;
pub const MESSAGE_DELAY_ENABLED: bool = true;
/// Range of random message delays, milliseconds.
pub const MESSAGE_DELAY_MIN_MS: u64 = 0;
pub const MESSAGE_DELAY_MAX_MS: u64 = 100;
pub const COMMAND_REJECT_ENABLED: bool = true;
/// Rate of ignored commands, parts per million.
pub const COMMAND_REJECT_RATE_PPM: u64 = 20000;
pub const STALE_STATE_ENABLED: bool = true;
/// Rate of stale state reports, parts per million.
pub const STALE_STATE_RATE_PPM: u64 = 30000;
pub const BATTERY_GLITCH_ENABLED: bool = true;
/// Rate of false low battery readings, parts per million.
pub const BATTERY_GLITCH_RATE_PPM: u64 = 10000;
pub const CRASH_ENABLED: bool = false;
/// Rate of process self-termination per loop, parts per million.
pub const CRASH_RATE_PPM: u64 = 100;

/// Whether a fault enabled by `switch_on` and `fault_on` strikes, with a
/// draw `draw` in `0..1_000_000` and rate `rate_ppm`.
pub open spec fn strikes(switch_on: bool, fault_on: bool, draw: u64, rate_ppm: u64) -> bool {
    switch_on && fault_on && draw < rate_ppm
}

/// Whether a fault strikes for a given draw.
pub fn fault_strikes(switch_on: bool, fault_on: bool, draw: u64, rate_ppm: u64) -> (b: bool)
    ensures
        b == strikes(switch_on, fault_on, draw, rate_ppm),
{
    switch_on && fault_on && draw < rate_ppm
}

/// Whether a fault strikes now: never when switched off, else with its
/// rate.
fn chance(switch_on: bool, fault_on: bool, rate_ppm: u64) -> (b: bool)
    ensures
        b ==> switch_on && fault_on,
        exists|draw: u64| draw < 1000000 && b == #[trigger] strikes(switch_on, fault_on, draw, rate_ppm),
{
    if !switch_on || !fault_on {
        assert(!strikes(switch_on, fault_on, 0, rate_ppm));
        return false;
    }
    let mut rng = thread_rng();
    let draw = gen_range_inclusive(&mut rng, 0, 999999);
    fault_strikes(switch_on, fault_on, draw, rate_ppm)
}

/// Whether to drop an outgoing packet (simulated network loss).
pub fn should_drop_packet(enabled: bool) -> (b: bool)
    ensures
        b ==> enabled && PACKET_LOSS_ENABLED,
        exists|draw: u64| draw < 1000000 && b == #[trigger] strikes(enabled, PACKET_LOSS_ENABLED, draw, PACKET_LOSS_RATE_PPM),
{
    chance(enabled, PACKET_LOSS_ENABLED, PACKET_LOSS_RATE_PPM)
}

/// Whether to ignore a command (simulated firmware issue).
pub fn should_reject_command(enabled: bool) -> (b: bool)
    ensures
        b ==> enabled && COMMAND_REJECT_ENABLED,
        exists|draw: u64|
            draw < 1000000 && b == #[trigger] strikes(enabled, COMMAND_REJECT_ENABLED, draw, COMMAND_REJECT_RATE_PPM),
{
    chance(enabled, COMMAND_REJECT_ENABLED, COMMAND_REJECT_RATE_PPM)
}

/// Whether to send stale state instead of the current one (simulated
/// desync).
pub fn should_send_stale_state(enabled: bool) -> (b: bool)
    ensures
        b ==> enabled && STALE_STATE_ENABLED,
        exists|draw: u64| draw < 1000000 && b == #[trigger] strikes(enabled, STALE_STATE_ENABLED, draw, STALE_STATE_RATE_PPM),
{
    chance(enabled, STALE_STATE_ENABLED, STALE_STATE_RATE_PPM)
}

/// Whether the battery sensor gives a false low reading.
pub fn should_battery_glitch(enabled: bool) -> (b: bool)
    ensures
        b ==> enabled && BATTERY_GLITCH_ENABLED,
        exists|draw: u64|
            draw < 1000000 && b == #[trigger] strikes(enabled, BATTERY_GLITCH_ENABLED, draw, BATTERY_GLITCH_RATE_PPM),
{
    chance(enabled, BATTERY_GLITCH_ENABLED, BATTERY_GLITCH_RATE_PPM)
}

/// Whether the process should crash.
pub fn should_crash(enabled: bool) -> (b: bool)
    ensures
        b ==> enabled && CRASH_ENABLED,
        exists|draw: u64| draw < 1000000 && b == #[trigger] strikes(enabled, CRASH_ENABLED, draw, CRASH_RATE_PPM),
{
    chance(enabled, CRASH_ENABLED, CRASH_RATE_PPM)
}

/// A random message delay in milliseconds; 0 when chaos or delays are
/// off.
pub fn get_message_delay_ms(enabled: bool) -> (ms: u64)
    ensures
        !(enabled && MESSAGE_DELAY_ENABLED) ==> ms == 0,
        MESSAGE_DELAY_MIN_MS <= ms <= MESSAGE_DELAY_MAX_MS,
{
    if !enabled || !MESSAGE_DELAY_ENABLED {
        return 0;
    }
    let mut rng = thread_rng();
    gen_range_inclusive(&mut rng, MESSAGE_DELAY_MIN_MS, MESSAGE_DELAY_MAX_MS)
}

} // verus!
