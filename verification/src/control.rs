//! Decisions of the audio engine's control loops: how the outputs are
//! routed, how long to wait for the output device, when settings are saved,
//! and how the key and scale travel through the shared parameter slots.
use vstd::prelude::*;

verus! {

/// Capacity, in samples, of the queue from the microphone to the output.
pub const RING_FRAMES: usize = 1024;

/// Capacity, in samples, of the queue to the Discord cable.
pub const CABLE_RING_FRAMES: usize = 4096;

/// Number of polls of the output device before giving up on it.
pub const OUTPUT_WAIT_ATTEMPTS: u32 = 200;

/// Pause between two polls of the output device.
pub const OUTPUT_WAIT_STEP_MS: u64 = 10;

/// Shortest pause between two automatic saves of the settings.
pub const AUTOSAVE_INTERVAL_NANOS: u128 = 500_000_000;

/// How the engine routes its output.
#[derive(Clone, Copy)]
pub struct Routing {
    /// Feed a second output to a virtual cable for Discord.
    pub cable: bool,
    /// Ask the main output for exclusive mode first.
    pub prefer_exclusive: bool,
}

/// The routing for a start of the engine: a cable feed when sending to
/// Discord is on and a cable device is chosen; exclusive mode is tried only
/// when not sending to Discord.
pub fn plan_routing(send_discord: bool, cable_device_id: &str) -> (r: Routing)
    ensures
        r.cable == (send_discord && cable_device_id@.len() != 0),
        r.prefer_exclusive == !send_discord,
{
    Routing { cable: send_discord && !cable_device_id.is_empty(), prefer_exclusive: !send_discord }
}

/// What a thread waiting for the output device does after a poll.
pub enum OutputWait {
    /// The engine is stopping.
    Stopped,
    /// The output runs at this sample rate.
    Ready(usize),
    /// Sleep and poll again.
    Retry,
    /// The output never came up.
    TimedOut,
}

/// One poll of the wait for the output device, the `attempt`-th (from 0):
/// past the last attempt the wait has timed out; otherwise a stop request
/// wins, then a ready output with a known rate.
pub fn output_wait_step(attempt: u32, stopping: bool, output_ready: bool, sample_rate: u32) -> (r:
    OutputWait)
    ensures
        attempt >= OUTPUT_WAIT_ATTEMPTS ==> r is TimedOut,
        attempt < OUTPUT_WAIT_ATTEMPTS && stopping ==> r is Stopped,
        attempt < OUTPUT_WAIT_ATTEMPTS && !stopping && output_ready && sample_rate > 0 ==> r
            == OutputWait::Ready(sample_rate as usize),
        attempt < OUTPUT_WAIT_ATTEMPTS && !stopping && !(output_ready && sample_rate > 0) ==> r is Retry,
{
    if attempt >= OUTPUT_WAIT_ATTEMPTS {
        OutputWait::TimedOut
    } else if stopping {
        OutputWait::Stopped
    } else if output_ready && sample_rate > 0 {
        OutputWait::Ready(sample_rate as usize)
    } else {
        OutputWait::Retry
    }
}

/// Whether a periodic autosave writes now: only when the settings differ
/// from the last ones written and at least half a second has passed since.
pub fn autosave_due(changed: bool, since_last_write_nanos: u128) -> (r: bool)
    ensures
        r == (changed && since_last_write_nanos >= AUTOSAVE_INTERVAL_NANOS),
{
    changed && since_last_write_nanos >= AUTOSAVE_INTERVAL_NANOS
}

/// The shared-slot form of a key (its two's complement bits).
pub fn key_to_slot(key: i32) -> (r: u32)
    ensures
        r == key as u32,
{
    key as u32
}

/// The key held in a shared slot.
pub fn key_from_slot(slot: u32) -> (r: i32)
    ensures
        r == slot as i32,
{
    slot as i32
}

/// The shared-slot form of a scale number.
pub fn scale_to_slot(scale: usize) -> (r: u32)
    ensures
        r == scale as u32,
{
    scale as u32
}

/// The scale number held in a shared slot.
pub fn scale_from_slot(slot: u32) -> (r: usize)
    ensures
        r == slot as usize,
{
    slot as usize
}

/// Law: a key written to its shared slot reads back unchanged, and so does
/// any scale number that fits in 32 bits.
pub proof fn law_slots_read_back(key: i32, scale: usize)
    requires
        scale <= u32::MAX,
    ensures
        (key as u32) as i32 == key,
        ((scale as u32) as usize) == scale,
{
    assert((key as u32) as i32 == key) by (bit_vector);
}

} // verus!
