//! Frame and padding arithmetic shared by the spectral transform and the
//! amplitude-envelope extractor.

use vstd::prelude::*;

verus! {

/// Number of analysis frames the forward spectral transform produces for a
/// row of `len` samples at stride `hop`.
pub open spec fn spec_stft_frames(len: nat, hop: nat) -> nat
    recommends
        hop > 0,
{
    len / hop + 1
}

/// Number of frames the amplitude-envelope extractor produces for a row of
/// `len` samples at stride `hop`: one frame per chunk, the final partial
/// chunk included.
pub open spec fn spec_envelope_frames(len: nat, hop: nat) -> nat
    recommends
        hop > 0,
{
    if len % hop == 0 {
        len / hop
    } else {
        len / hop + 1
    }
}

/// Frame count of the forward spectral transform.
pub fn stft_frame_count(len: usize, hop: usize) -> (r: usize)
    requires
        hop > 0,
        len / hop < usize::MAX,
    ensures
        r == spec_stft_frames(len as nat, hop as nat),
{
    len / hop + 1
}

/// Frame count of the amplitude envelope.
pub fn envelope_frame_count(len: usize, hop: usize) -> (r: usize)
    requires
        hop > 0,
        len / hop < usize::MAX,
    ensures
        r == spec_envelope_frames(len as nat, hop as nat),
{
    if len % hop == 0 {
        len / hop
    } else {
        len / hop + 1
    }
}

/// Frame-count agreement: for any row length and hop, the amplitude
/// envelope's frame count and the spectral transform's frame count differ
/// by at most one, and the envelope is never the longer of the two.
pub proof fn lemma_frame_count_agreement(len: nat, hop: nat)
    requires
        hop > 0,
    ensures
        spec_envelope_frames(len, hop) <= spec_stft_frames(len, hop),
        spec_stft_frames(len, hop) - spec_envelope_frames(len, hop) <= 1,
{
}

/// Left padding added to every row before spectral analysis.
pub open spec fn spec_left_pad(n_fft: nat) -> nat {
    n_fft / 2
}

/// Right padding added to every row before spectral analysis; it extends
/// the row to the next hop boundary and then by half a window, so that the
/// final analysis window fully covers the signal tail.
pub open spec fn spec_right_pad(len: nat, n_fft: nat, hop: nat) -> nat
    recommends
        hop > 0,
{
    n_fft / 2 + ((hop - len % hop) as nat)
}

/// Length of a padded analysis row.
pub open spec fn spec_padded_len(len: nat, n_fft: nat, hop: nat) -> nat
    recommends
        hop > 0,
{
    spec_left_pad(n_fft) + len + spec_right_pad(len, n_fft, hop)
}

/// Every analysis window lies inside the padded row: the window that the
/// last frame reads ends no later than the padded row does.
pub proof fn lemma_windows_covered(len: nat, n_fft: nat, hop: nat)
    requires
        hop > 0,
        n_fft > 0,
    ensures
        (spec_stft_frames(len, hop) - 1) * hop + n_fft <= spec_padded_len(len, n_fft, hop),
{
    let t = spec_stft_frames(len, hop) - 1;
    assert(t == len / hop);
    assert(len / hop * hop + len % hop == len) by {
        vstd::arithmetic::div_mod::lemma_fundamental_div_mod(len as int, hop as int);
    }
}

} // verus!
