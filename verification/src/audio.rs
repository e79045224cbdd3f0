use vstd::prelude::*;

verus! {

/// The sample rate the audio output prefers, in hertz.
pub const PREFERRED_SAMPLE_RATE: u32 = 48000;

/// The buffer length the audio output prefers, in frames.
pub const PREFERRED_BUFFER_LEN: u32 = 512;

/// What an output configuration of the audio device offers: whether its
/// samples are 32-bit floats, and its number of channels.
#[derive(Clone, Copy, PartialEq, Eq, Structural, Debug)]
pub struct OutputConfig {
    pub float_samples: bool,
    pub channels: u16,
}

/// Whether a configuration can play the game's stereo float samples.
pub open spec fn config_usable(c: OutputConfig) -> bool {
    c.float_samples && c.channels >= 2
}

/// The position of the first usable configuration, if there is one.
pub fn choose_output_config(configs: &[OutputConfig]) -> (r: Option<usize>)
    ensures
        match r {
            Some(i) => i < configs@.len() && config_usable(configs@[i as int]) && forall|j: int|
                0 <= j < i ==> !config_usable(#[trigger] configs@[j]),
            None => forall|j: int| 0 <= j < configs@.len() ==> !config_usable(#[trigger] configs@[j]),
        },
{
    let mut i: usize = 0;
    while i < configs.len()
        invariant
            i <= configs@.len(),
            forall|j: int| 0 <= j < i ==> !config_usable(#[trigger] configs@[j]),
        decreases configs@.len() - i,
    {
        let c = configs[i];
        if c.float_samples && c.channels >= 2 {
            return Some(i);
        }
        i = i + 1;
    }
    None
}

/// The sample rate to play at: the preferred one, or the device's largest if
/// that is lower.
pub fn output_sample_rate(max_sample_rate: u32) -> (r: u32)
    ensures
        r == if max_sample_rate < PREFERRED_SAMPLE_RATE { max_sample_rate } else { PREFERRED_SAMPLE_RATE },
{
    if max_sample_rate < PREFERRED_SAMPLE_RATE {
        max_sample_rate
    } else {
        PREFERRED_SAMPLE_RATE
    }
}

/// The buffer length to ask for: the preferred one brought into the range
/// that the device supports, or the device's default (`None`) when it does
/// not say.
pub fn output_buffer_len(range: Option<(u32, u32)>) -> (r: Option<u32>)
    requires
        range matches Some((lo, hi)) ==> lo <= hi,
    ensures
        match range {
            Some((lo, hi)) => r == Some(
                if PREFERRED_BUFFER_LEN < lo {
                    lo
                } else if PREFERRED_BUFFER_LEN > hi {
                    hi
                } else {
                    PREFERRED_BUFFER_LEN
                },
            ),
            None => r is None,
        },
{
    match range {
        Some((lo, hi)) => {
            if PREFERRED_BUFFER_LEN < lo {
                Some(lo)
            } else if PREFERRED_BUFFER_LEN > hi {
                Some(hi)
            } else {
                Some(PREFERRED_BUFFER_LEN)
            }
        },
        None => None,
    }
}

} // verus!
