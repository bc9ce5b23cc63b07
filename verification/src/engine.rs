//! The mixer's rules that do not depend on the sound samples: the bounded
//! pool of playing voices and the choice of the device buffer size.
use vstd::prelude::*;

verus! {

/// At most this many voices play at once.
pub const MAX_VOICES: usize = 64;

/// Capacity of the ring that carries play requests to the audio thread.
pub const RING_CAP: usize = 1024;

/// The buffer size (in frames) asked of the device when it names a range.
pub const PREFERRED_BUFFER_FRAMES: u32 = 256;

/// The pool after a new voice is started: the oldest voice is dropped when
/// the pool is full, and the new one goes last.
pub open spec fn spec_admit<V>(voices: Seq<V>, v: V) -> Seq<V> {
    if voices.len() >= MAX_VOICES {
        voices.drop_first().push(v)
    } else {
        voices.push(v)
    }
}

/// Starting a voice never lets the pool grow past `MAX_VOICES`; the new voice
/// is the newest, and the voices already playing stay in order (all of them
/// while there is room, all but the oldest otherwise).
pub proof fn law_pool_stays_bounded<V>(voices: Seq<V>, v: V)
    requires
        voices.len() <= MAX_VOICES,
    ensures
        spec_admit(voices, v).len() <= MAX_VOICES,
        spec_admit(voices, v).last() == v,
        voices.len() < MAX_VOICES ==> spec_admit(voices, v).drop_last() == voices,
        voices.len() == MAX_VOICES ==> spec_admit(voices, v).drop_last() == voices.drop_first(),
{
    assert(voices.push(v).drop_last() =~= voices);
    if voices.len() == MAX_VOICES {
        assert(voices.drop_first().push(v).drop_last() =~= voices.drop_first());
    }
}

/// Starts a voice: drops the oldest one when `MAX_VOICES` are already playing.
pub fn admit_voice<V>(voices: &mut Vec<V>, v: V)
    ensures
        final(voices)@ == spec_admit(old(voices)@, v),
{
    if voices.len() >= MAX_VOICES {
        voices.remove(0);
    }
    voices.push(v);
}

/// The buffer size for a device that supports sizes from `min` to `max`:
/// the preferred size, clamped to that range.
pub fn fixed_buffer_frames(min: u32, max: u32) -> (frames: u32)
    requires
        min <= max,
    ensures
        frames == if PREFERRED_BUFFER_FRAMES < min {
            min
        } else if PREFERRED_BUFFER_FRAMES > max {
            max
        } else {
            PREFERRED_BUFFER_FRAMES
        },
        min <= frames <= max,
{
    if PREFERRED_BUFFER_FRAMES < min {
        min
    } else if PREFERRED_BUFFER_FRAMES > max {
        max
    } else {
        PREFERRED_BUFFER_FRAMES
    }
}

} // verus!
