//! Layout of decoded audio: turning interleaved samples of any channel count
//! into interleaved stereo frames, whatever the sample type.
use vstd::prelude::*;

verus! {

/// The channel count used for a file: the one it declares, at least one.
pub open spec fn used_channels(declared: u16) -> nat {
    if declared == 0 {
        1
    } else {
        declared as nat
    }
}

/// The number of whole frames in `len` interleaved samples of `declared` channels.
pub open spec fn frame_count(len: nat, declared: u16) -> nat {
    len / used_channels(declared)
}

/// The stereo layout of interleaved samples: for each whole frame, its first
/// channel as left, and its second channel as right (or the first again for a
/// mono file); an incomplete last frame is dropped.
pub open spec fn stereo_of<T>(raw: Seq<T>, declared: u16) -> Seq<T> {
    Seq::new(
        2 * frame_count(raw.len(), declared),
        |k: int|
            {
                let base = (k / 2) * used_channels(declared);
                if k % 2 == 0 || used_channels(declared) < 2 {
                    raw[base]
                } else {
                    raw[base + 1]
                }
            },
    )
}

/// The stereo layout holds two samples per whole frame, in frame order; a
/// mono file gives the same sample to both sides.
pub proof fn law_stereo_layout<T>(raw: Seq<T>, declared: u16, f: int)
    requires
        0 <= f < frame_count(raw.len(), declared),
    ensures
        stereo_of(raw, declared).len() == 2 * frame_count(raw.len(), declared),
        stereo_of(raw, declared)[2 * f] == raw[f * used_channels(declared)],
        used_channels(declared) == 1 ==> stereo_of(raw, declared)[2 * f + 1] == stereo_of(
            raw,
            declared,
        )[2 * f],
        used_channels(declared) >= 2 ==> stereo_of(raw, declared)[2 * f + 1] == raw[f
            * used_channels(declared) + 1],
{
    assert((2 * f) / 2 == f && (2 * f) % 2 == 0) by (nonlinear_arith);
    assert((2 * f + 1) / 2 == f && (2 * f + 1) % 2 == 1) by (nonlinear_arith);
}

/// Deinterleaves samples of `channels` channels into stereo (mono is
/// duplicated to both sides; channels past the second are dropped).
pub fn to_stereo<T: Copy>(raw: &Vec<T>, channels: u16) -> (out: Vec<T>)
    requires
        2 * frame_count(raw@.len(), channels) <= usize::MAX,
    ensures
        out@ == stereo_of(raw@, channels),
{
    let ch: usize = if channels == 0 {
        1
    } else {
        channels as usize
    };
    let n = raw.len();
    let frames = n / ch;
    let mut out: Vec<T> = Vec::with_capacity(frames * 2);
    let mut f: usize = 0;
    let mut base: usize = 0;
    while f < frames
        invariant
            ch == used_channels(channels),
            ch >= 1,
            n == raw@.len(),
            frames == frame_count(raw@.len(), channels),
            2 * frames <= usize::MAX,
            f <= frames,
            base == f * ch,
            out@.len() == 2 * f,
            forall|k: int| 0 <= k < 2 * f ==> out@[k] == #[trigger] stereo_of(raw@, channels)[k],
        decreases frames - f,
    {
        assert(base + ch <= raw@.len()) by (nonlinear_arith)
            requires
                base == f * ch,
                f < frames,
                frames == raw@.len() / (ch as nat),
                ch >= 1,
        {
            assert(f + 1 <= frames);
            assert((f + 1) * ch <= frames * ch);
            assert(frames * ch <= raw@.len());
        }
        let l = raw[base];
        let r = if ch >= 2 {
            raw[base + 1]
        } else {
            l
        };
        proof {
            let s = stereo_of(raw@, channels);
            assert((2 * f) / 2 == f && (2 * f) % 2 == 0) by (nonlinear_arith);
            assert((2 * f + 1) / 2 == f && (2 * f + 1) % 2 == 1) by (nonlinear_arith);
            assert(s[2 * f] == raw@[base as int]);
            assert(s[2 * f + 1] == r);
        }
        out.push(l);
        out.push(r);
        f = f + 1;
        base = base + ch;
        assert(base == f * ch) by (nonlinear_arith)
            requires
                base == (f - 1) * ch + ch,
        ;
    }
    assert(out@ =~= stereo_of(raw@, channels));
    out
}

} // verus!
