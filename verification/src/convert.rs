//! The conversion orchestrator. The pipeline around the opaque inference
//! engine is a state machine: each step consumes the engine's last reply,
//! performs the next verified transform, and names the next engine call.
//! The host driving the engine performs each named request and hands the
//! reply back; any engine failure aborts the conversion unchanged.

use crate::envelope::{amplitude, spec_envelope_at};
use crate::fft::{
    istft_without_window, spec_ola, spec_stft_im, spec_stft_re, spectrogram, ComplexSpectrogram,
};
use crate::frames::{spec_envelope_frames, spec_stft_frames};
use crate::latent::{
    blend_content, spec_blend, spec_shift_frame, spec_shift_frame_ok, LatentRepresentation,
    PitchTrack,
};
use crate::num::{div_q, div_trunc, lemma_div_trunc_bounded, lemma_mul_bounded};
use crate::plan::SpectralPlan;
use crate::tensor::Tensor3;
use crate::wave::{SignalBatch, WaveformBatch};
use crate::ConvertError;
use crate::{ALPHA_ONE, CELL_LIMIT, LOG_CEILING, TRIG_ONE, VALUE_LIMIT};
use vstd::prelude::*;

verus! {

/// A log-magnitude saturated at the decoder ceiling: values at or above
/// `LOG_CEILING` map to exactly `LOG_CEILING`.
pub open spec fn spec_clamp_log(v: int) -> int {
    if v >= LOG_CEILING {
        LOG_CEILING as int
    } else {
        v
    }
}

/// Saturate a decoder log-magnitude tensor at the fixed ceiling, so that
/// exponentiation cannot overflow on degenerate model output: every value
/// at or above `LOG_CEILING` maps to exactly `LOG_CEILING`, every other
/// value is unchanged.
pub fn clamp_log_magnitude(input: &Tensor3) -> (r: Tensor3)
    requires
        input.wf(),
    ensures
        r.wf(),
        r.batches() == input.batches(),
        r.channels() == input.channels(),
        r.frames() == input.frames(),
        forall|b: int, c: int, f: int|
            0 <= b < input.batches() && 0 <= c < input.channels() && 0 <= f < input.frames()
                ==> #[trigger] r.at(b, c, f) == spec_clamp_log(input.at(b, c, f)),
{
    let b_count = input.data.len();
    let mut out: Vec<Vec<Vec<i64>>> = Vec::new();
    for b in 0..b_count
        invariant
            input.wf(),
            b_count == input.batches(),
            out@.len() == b,
            forall|x: int| 0 <= x < b ==> (#[trigger] out@[x]@).len() == input.channels(),
            forall|x: int, c: int|
                0 <= x < b && 0 <= c < input.channels() ==> (#[trigger] out@[x]@[c]@).len()
                    == input.frames(),
            forall|x: int, c: int, f: int|
                0 <= x < b && 0 <= c < input.channels() && 0 <= f < input.frames()
                    ==> #[trigger] out@[x]@[c]@[f] as int == spec_clamp_log(input.at(x, c, f)),
            forall|x: int, c: int, f: int|
                0 <= x < b && 0 <= c < input.channels() && 0 <= f < input.frames()
                    ==> -VALUE_LIMIT <= #[trigger] out@[x]@[c]@[f] <= VALUE_LIMIT,
    {
        let c_count = input.data[b].len();
        let mut row: Vec<Vec<i64>> = Vec::new();
        for c in 0..c_count
            invariant
                input.wf(),
                b < input.batches(),
                c_count == input.channels(),
                row@.len() == c,
                forall|j: int| 0 <= j < c ==> (#[trigger] row@[j]@).len() == input.frames(),
                forall|j: int, f: int|
                    0 <= j < c && 0 <= f < input.frames() ==> #[trigger] row@[j]@[f] as int
                        == spec_clamp_log(input.at(b as int, j, f)),
                forall|j: int, f: int|
                    0 <= j < c && 0 <= f < input.frames() ==> -VALUE_LIMIT
                        <= #[trigger] row@[j]@[f] <= VALUE_LIMIT,
        {
            let f_count = input.data[b][c].len();
            let mut chan: Vec<i64> = Vec::new();
            for f in 0..f_count
                invariant
                    input.wf(),
                    b < input.batches(),
                    c < input.channels(),
                    f_count == input.frames(),
                    chan@.len() == f,
                    forall|g: int|
                        0 <= g < f ==> #[trigger] chan@[g] as int == spec_clamp_log(
                            input.at(b as int, c as int, g),
                        ),
                    forall|g: int|
                        0 <= g < f ==> -VALUE_LIMIT <= #[trigger] chan@[g] <= VALUE_LIMIT,
            {
                let v = input.data[b][c][f];
                let q: i64 = if v >= LOG_CEILING {
                    LOG_CEILING
                } else {
                    v
                };
                chan.push(q);
            }
            row.push(chan);
        }
        out.push(row);
    }
    let r = Tensor3 { data: out };
    proof {
        if r.batches() > 0 {
            assert(r.data@[0]@.len() == input.channels());
            if input.channels() > 0 {
                assert(r.data@[0]@[0]@.len() == input.frames());
            }
        }
        assert(r.wf());
    }
    r
}

/// The three decoder tensors share one shape.
pub open spec fn spec_polar_shapes_ok(mag: Tensor3, cosph: Tensor3, sinph: Tensor3) -> bool {
    &&& cosph.batches() == mag.batches() && cosph.channels() == mag.channels()
        && cosph.frames() == mag.frames()
    &&& sinph.batches() == mag.batches() && sinph.channels() == mag.channels()
        && sinph.frames() == mag.frames()
}

/// The decoder tensors' values are in range: magnitudes in
/// `[0, CELL_LIMIT]`, trigonometric values within `TRIG_ONE`.
pub open spec fn spec_polar_ranges_ok(mag: Tensor3, cosph: Tensor3, sinph: Tensor3) -> bool {
    &&& mag.within(0, CELL_LIMIT as int)
    &&& cosph.within(-TRIG_ONE as int, TRIG_ONE as int)
    &&& sinph.within(-TRIG_ONE as int, TRIG_ONE as int)
}

/// Combine a magnitude tensor with the cosine and sine of a phase tensor
/// into a complex spectrogram: cell `re = magnitude * cos / TRIG_ONE`,
/// `im = magnitude * sin / TRIG_ONE`. Accepted exactly when the three
/// tensors share a shape, the magnitudes lie in `[0, CELL_LIMIT]` and the
/// trigonometric values within `TRIG_ONE`; a shape disagreement is a shape
/// mismatch, an out-of-range value a domain error.
pub fn polar_to_complex(mag: &Tensor3, cosph: &Tensor3, sinph: &Tensor3) -> (r: Result<
    ComplexSpectrogram,
    ConvertError,
>)
    requires
        mag.wf(),
        cosph.wf(),
        sinph.wf(),
    ensures
        r is Ok <==> (spec_polar_shapes_ok(*mag, *cosph, *sinph) && spec_polar_ranges_ok(
            *mag,
            *cosph,
            *sinph,
        )),
        r is Ok ==> {
            &&& r->Ok_0.wf()
            &&& r->Ok_0.batches() == mag.batches()
            &&& r->Ok_0.bins() == mag.channels()
            &&& r->Ok_0.frames() == mag.frames()
            &&& forall|b: int, k: int, t: int|
                0 <= b < mag.batches() && 0 <= k < mag.channels() && 0 <= t < mag.frames() ==> {
                    &&& #[trigger] r->Ok_0.re_at(b, k, t) == div_trunc(
                        mag.at(b, k, t) * cosph.at(b, k, t),
                        TRIG_ONE as int,
                    )
                    &&& r->Ok_0.im_at(b, k, t) == div_trunc(
                        mag.at(b, k, t) * sinph.at(b, k, t),
                        TRIG_ONE as int,
                    )
                }
        },
        r is Err ==> (r->Err_0 == ConvertError::ShapeMismatch || r->Err_0
            == ConvertError::DomainError),
        !spec_polar_shapes_ok(*mag, *cosph, *sinph) ==> (r is Err && r->Err_0
            == ConvertError::ShapeMismatch),
        spec_polar_shapes_ok(*mag, *cosph, *sinph) && !spec_polar_ranges_ok(
            *mag,
            *cosph,
            *sinph,
        ) ==> (r is Err && r->Err_0 == ConvertError::DomainError),
{
    let b_count = mag.batch_count();
    let c_count = mag.channel_count();
    let f_count = mag.frame_count();
    if cosph.batch_count() != b_count || cosph.channel_count() != c_count || cosph.frame_count()
        != f_count || sinph.batch_count() != b_count || sinph.channel_count() != c_count
        || sinph.frame_count() != f_count {
        return Err(ConvertError::ShapeMismatch);
    }
    if !mag.values_within(0, CELL_LIMIT) || !cosph.values_within(-TRIG_ONE, TRIG_ONE)
        || !sinph.values_within(-TRIG_ONE, TRIG_ONE) {
        return Err(ConvertError::DomainError);
    }
    let mut re: Vec<Vec<Vec<i64>>> = Vec::new();
    let mut im: Vec<Vec<Vec<i64>>> = Vec::new();
    for b in 0..b_count
        invariant
            mag.wf(),
            cosph.wf(),
            sinph.wf(),
            b_count == mag.batches(),
            c_count == mag.channels(),
            f_count == mag.frames(),
            b_count == cosph.batches(),
            c_count == cosph.channels(),
            f_count == cosph.frames(),
            b_count == sinph.batches(),
            c_count == sinph.channels(),
            f_count == sinph.frames(),
            mag.within(0, CELL_LIMIT as int),
            cosph.within(-TRIG_ONE as int, TRIG_ONE as int),
            sinph.within(-TRIG_ONE as int, TRIG_ONE as int),
            re@.len() == b,
            im@.len() == b,
            forall|x: int| 0 <= x < b ==> (#[trigger] re@[x]@).len() == c_count,
            forall|x: int| 0 <= x < b ==> (#[trigger] im@[x]@).len() == c_count,
            forall|x: int, c: int|
                0 <= x < b && 0 <= c < c_count ==> (#[trigger] re@[x]@[c]@).len() == f_count,
            forall|x: int, c: int|
                0 <= x < b && 0 <= c < c_count ==> (#[trigger] im@[x]@[c]@).len() == f_count,
            forall|x: int, c: int, f: int|
                0 <= x < b && 0 <= c < c_count && 0 <= f < f_count ==> #[trigger] re@[x]@[c]@[f]
                    as int == div_trunc(mag.at(x, c, f) * cosph.at(x, c, f), TRIG_ONE as int),
            forall|x: int, c: int, f: int|
                0 <= x < b && 0 <= c < c_count && 0 <= f < f_count ==> #[trigger] im@[x]@[c]@[f]
                    as int == div_trunc(mag.at(x, c, f) * sinph.at(x, c, f), TRIG_ONE as int),
            forall|x: int, c: int, f: int|
                0 <= x < b && 0 <= c < c_count && 0 <= f < f_count ==> -CELL_LIMIT
                    <= #[trigger] re@[x]@[c]@[f] <= CELL_LIMIT,
            forall|x: int, c: int, f: int|
                0 <= x < b && 0 <= c < c_count && 0 <= f < f_count ==> -CELL_LIMIT
                    <= #[trigger] im@[x]@[c]@[f] <= CELL_LIMIT,
    {
        let mut re_b: Vec<Vec<i64>> = Vec::new();
        let mut im_b: Vec<Vec<i64>> = Vec::new();
        for c in 0..c_count
            invariant
                mag.wf(),
                cosph.wf(),
                sinph.wf(),
                b < mag.batches(),
                b < cosph.batches(),
                b < sinph.batches(),
                c_count == mag.channels(),
                f_count == mag.frames(),
                c_count == cosph.channels(),
                f_count == cosph.frames(),
                c_count == sinph.channels(),
                f_count == sinph.frames(),
                mag.within(0, CELL_LIMIT as int),
                cosph.within(-TRIG_ONE as int, TRIG_ONE as int),
                sinph.within(-TRIG_ONE as int, TRIG_ONE as int),
                re_b@.len() == c,
                im_b@.len() == c,
                forall|j: int| 0 <= j < c ==> (#[trigger] re_b@[j]@).len() == f_count,
                forall|j: int| 0 <= j < c ==> (#[trigger] im_b@[j]@).len() == f_count,
                forall|j: int, f: int|
                    0 <= j < c && 0 <= f < f_count ==> #[trigger] re_b@[j]@[f] as int == div_trunc(
                        mag.at(b as int, j, f) * cosph.at(b as int, j, f),
                        TRIG_ONE as int,
                    ),
                forall|j: int, f: int|
                    0 <= j < c && 0 <= f < f_count ==> #[trigger] im_b@[j]@[f] as int == div_trunc(
                        mag.at(b as int, j, f) * sinph.at(b as int, j, f),
                        TRIG_ONE as int,
                    ),
                forall|j: int, f: int|
                    0 <= j < c && 0 <= f < f_count ==> -CELL_LIMIT <= #[trigger] re_b@[j]@[f]
                        <= CELL_LIMIT,
                forall|j: int, f: int|
                    0 <= j < c && 0 <= f < f_count ==> -CELL_LIMIT <= #[trigger] im_b@[j]@[f]
                        <= CELL_LIMIT,
        {
            let mut re_c: Vec<i64> = Vec::new();
            let mut im_c: Vec<i64> = Vec::new();
            for f in 0..f_count
                invariant
                    mag.wf(),
                    cosph.wf(),
                    sinph.wf(),
                    b < mag.batches(),
                    b < cosph.batches(),
                    b < sinph.batches(),
                    c < mag.channels(),
                    c < cosph.channels(),
                    c < sinph.channels(),
                    f_count == mag.frames(),
                    f_count == cosph.frames(),
                    f_count == sinph.frames(),
                    mag.within(0, CELL_LIMIT as int),
                    cosph.within(-TRIG_ONE as int, TRIG_ONE as int),
                    sinph.within(-TRIG_ONE as int, TRIG_ONE as int),
                    re_c@.len() == f,
                    im_c@.len() == f,
                    forall|g: int|
                        0 <= g < f ==> #[trigger] re_c@[g] as int == div_trunc(
                            mag.at(b as int, c as int, g) * cosph.at(b as int, c as int, g),
                            TRIG_ONE as int,
                        ),
                    forall|g: int|
                        0 <= g < f ==> #[trigger] im_c@[g] as int == div_trunc(
                            mag.at(b as int, c as int, g) * sinph.at(b as int, c as int, g),
                            TRIG_ONE as int,
                        ),
                    forall|g: int| 0 <= g < f ==> -CELL_LIMIT <= #[trigger] re_c@[g] <= CELL_LIMIT,
                    forall|g: int| 0 <= g < f ==> -CELL_LIMIT <= #[trigger] im_c@[g] <= CELL_LIMIT,
            {
                let m = mag.value_at(b, c, f);
                let cv = cosph.value_at(b, c, f);
                let sv = sinph.value_at(b, c, f);
                proof {
                    lemma_mul_bounded(m as int, cv as int, CELL_LIMIT as int, TRIG_ONE as int);
                    lemma_mul_bounded(m as int, sv as int, CELL_LIMIT as int, TRIG_ONE as int);
                    lemma_div_trunc_bounded(
                        (m as int) * (cv as int),
                        TRIG_ONE as int,
                        CELL_LIMIT as int,
                    );
                    lemma_div_trunc_bounded(
                        (m as int) * (sv as int),
                        TRIG_ONE as int,
                        CELL_LIMIT as int,
                    );
                }
                let rv = div_q((m as i128) * (cv as i128), TRIG_ONE as i128);
                let iv = div_q((m as i128) * (sv as i128), TRIG_ONE as i128);
                re_c.push(rv as i64);
                im_c.push(iv as i64);
            }
            re_b.push(re_c);
            im_b.push(im_c);
        }
        re.push(re_b);
        im.push(im_b);
    }
    let rt = Tensor3 { data: re };
    let it = Tensor3 { data: im };
    proof {
        if rt.batches() > 0 {
            assert(rt.data@[0]@.len() == c_count);
            assert(it.data@[0]@.len() == c_count);
            if c_count > 0 {
                assert(rt.data@[0]@[0]@.len() == f_count);
                assert(it.data@[0]@[0]@.len() == f_count);
            }
        }
        assert(CELL_LIMIT < VALUE_LIMIT);
        assert(rt.wf());
        assert(it.wf());
        assert(rt.within(-CELL_LIMIT as int, CELL_LIMIT as int));
        assert(it.within(-CELL_LIMIT as int, CELL_LIMIT as int));
    }
    Ok(ComplexSpectrogram { re: rt, im: it })
}

/// The decoder-synthesis inputs the pipeline accepts: the three tensors
/// share a shape, magnitudes lie in `[0, CELL_LIMIT]`, trigonometric
/// values within `TRIG_ONE`, the bin count matches the plan, and the
/// frame count keeps the synthesized length within the machine bound.
pub open spec fn spec_synthesis_ok(
    plan: SpectralPlan,
    mag: Tensor3,
    cosph: Tensor3,
    sinph: Tensor3,
) -> bool {
    &&& spec_polar_shapes_ok(mag, cosph, sinph)
    &&& spec_polar_ranges_ok(mag, cosph, sinph)
    &&& mag.channels() == plan.bins()
    &&& mag.frames() < 0x3_0000
}

/// The conversion pipeline's configuration: the spectral plan shared by
/// analysis and synthesis.
#[derive(Clone, Debug, PartialEq)]
pub struct VoiceConvertor {
    pub plan: SpectralPlan,
}

impl VoiceConvertor {
    /// Wrap a validated plan.
    pub fn new(plan: SpectralPlan) -> (r: VoiceConvertor)
        requires
            plan.wf(),
        ensures
            r.plan == plan,
    {
        VoiceConvertor { plan }
    }

    /// The analysis half of encoding: the amplitude envelope, extended
    /// with zero frames to the spectral frame count so the latent parts
    /// align, and the magnitude spectrogram to submit to the content
    /// encoder and pitch estimator.
    pub fn encode_analysis(&self, waves: &WaveformBatch) -> (r: (Tensor3, Tensor3))
        requires
            self.plan.wf(),
            waves.wf(),
            waves.row_len() < 0x1000_0000,
        ensures
            r.0.wf(),
            r.1.wf(),
            r.0.batches() == waves.batches(),
            r.1.batches() == waves.batches(),
            waves.batches() > 0 ==> {
                &&& r.0.channels() == 1
                &&& r.0.frames() == spec_stft_frames(waves.row_len(), self.plan.hop as nat)
                &&& r.1.channels() == self.plan.bins()
                &&& r.1.frames() == spec_stft_frames(waves.row_len(), self.plan.hop as nat)
            },
            forall|b: int, f: int|
                0 <= b < waves.batches() && 0 <= f < spec_envelope_frames(
                    waves.row_len(),
                    self.plan.hop as nat,
                ) ==> #[trigger] r.0.at(b, 0, f) == spec_envelope_at(
                    waves.rows@[b]@,
                    self.plan.hop as nat,
                    f as nat,
                ),
            forall|b: int, f: int|
                0 <= b < waves.batches() && spec_envelope_frames(
                    waves.row_len(),
                    self.plan.hop as nat,
                ) <= f < spec_stft_frames(waves.row_len(), self.plan.hop as nat)
                    ==> #[trigger] r.0.at(b, 0, f) == 0,
            forall|b: int, k: int, t: int|
                0 <= b < waves.batches() && 0 <= k < self.plan.bins() && 0 <= t
                    < spec_stft_frames(waves.row_len(), self.plan.hop as nat) ==> {
                    let m = #[trigger] r.1.at(b, k, t);
                    let re = spec_stft_re(waves.rows@[b]@, self.plan, k as nat, t as nat);
                    let im = spec_stft_im(waves.rows@[b]@, self.plan, k as nat, t as nat);
                    &&& 0 <= m
                    &&& m * m <= re * re + im * im
                    &&& re * re + im * im < (m + 1) * (m + 1)
                },
    {
        let env = amplitude(waves, self.plan.hop);
        let mag = spectrogram(waves, &self.plan);
        let b_count = waves.batch_count();
        let len = waves.sample_count();
        let e_count = crate::frames::envelope_frame_count(len, self.plan.hop);
        let s_count = crate::frames::stft_frame_count(len, self.plan.hop);
        proof {
            crate::frames::lemma_frame_count_agreement(len as nat, self.plan.hop as nat);
        }
        let mut out: Vec<Vec<Vec<i64>>> = Vec::new();
        for b in 0..b_count
            invariant
                waves.wf(),
                self.plan.wf(),
                env.wf(),
                b_count == waves.batches(),
                env.batches() == waves.batches(),
                len == waves.row_len(),
                e_count == spec_envelope_frames(len as nat, self.plan.hop as nat),
                s_count == spec_stft_frames(len as nat, self.plan.hop as nat),
                e_count <= s_count,
                waves.batches() > 0 ==> env.channels() == 1,
                waves.batches() > 0 ==> env.frames() == e_count,
                forall|x: int, f: int|
                    0 <= x < waves.batches() && 0 <= f < e_count ==> #[trigger] env.at(x, 0, f)
                        == spec_envelope_at(waves.rows@[x]@, self.plan.hop as nat, f as nat),
                out@.len() == b,
                forall|x: int| 0 <= x < b ==> (#[trigger] out@[x]@).len() == 1,
                forall|x: int| 0 <= x < b ==> (#[trigger] out@[x]@[0]@).len() == s_count,
                forall|x: int, f: int|
                    0 <= x < b && 0 <= f < e_count ==> #[trigger] out@[x]@[0]@[f] as int
                        == spec_envelope_at(waves.rows@[x]@, self.plan.hop as nat, f as nat),
                forall|x: int, f: int|
                    0 <= x < b && e_count <= f < s_count ==> #[trigger] out@[x]@[0]@[f] as int
                        == 0,
                forall|x: int, f: int|
                    0 <= x < b && 0 <= f < s_count ==> -VALUE_LIMIT <= #[trigger] out@[x]@[0]@[f]
                        <= VALUE_LIMIT,
        {
            let mut chan: Vec<i64> = Vec::new();
            for f in 0..s_count
                invariant
                    waves.wf(),
                    self.plan.wf(),
                    env.wf(),
                    b < waves.batches(),
                    env.batches() == waves.batches(),
                    len == waves.row_len(),
                    e_count == spec_envelope_frames(len as nat, self.plan.hop as nat),
                    s_count == spec_stft_frames(len as nat, self.plan.hop as nat),
                    e_count <= s_count,
                    env.channels() == 1,
                    env.frames() == e_count,
                    forall|x: int, g: int|
                        0 <= x < waves.batches() && 0 <= g < e_count ==> #[trigger] env.at(
                            x,
                            0,
                            g,
                        ) == spec_envelope_at(waves.rows@[x]@, self.plan.hop as nat, g as nat),
                    chan@.len() == f,
                    forall|g: int|
                        0 <= g < f && g < e_count ==> #[trigger] chan@[g] as int
                            == spec_envelope_at(
                            waves.rows@[b as int]@,
                            self.plan.hop as nat,
                            g as nat,
                        ),
                    forall|g: int|
                        e_count <= g < f ==> #[trigger] chan@[g] as int == 0,
                    forall|g: int|
                        0 <= g < f ==> -VALUE_LIMIT <= #[trigger] chan@[g] <= VALUE_LIMIT,
            {
                if f < e_count {
                    chan.push(env.value_at(b, 0, f));
                } else {
                    chan.push(0);
                }
            }
            let mut row: Vec<Vec<i64>> = Vec::new();
            row.push(chan);
            out.push(row);
        }
        let amp = Tensor3 { data: out };
        proof {
            if amp.batches() > 0 {
                assert(amp.data@[0]@.len() == 1);
                assert(amp.data@[0]@[0]@.len() == s_count);
            }
            assert(amp.wf());
        }
        (amp, mag)
    }

    /// Assemble the latent representation from the envelope and the two
    /// encoder replies: accepted exactly when the parts are aligned.
    pub fn encode_assemble(
        &self,
        amp: Tensor3,
        content: Tensor3,
        f0: PitchTrack,
    ) -> (r: Result<LatentRepresentation, ConvertError>)
        requires
            amp.wf(),
            content.wf(),
            f0.wf(),
        ensures
            r is Ok <==> (LatentRepresentation { amplitude: amp, content, f0 }).wf(),
            r is Ok ==> r->Ok_0 == (LatentRepresentation { amplitude: amp, content, f0 }),
            r is Err ==> r->Err_0 == ConvertError::ShapeMismatch,
    {
        LatentRepresentation::new(amp, content, f0)
    }

    /// Blend the voice-library reply against the original content: the
    /// output content is the fixed-point interpolation, a blend factor of
    /// `ALPHA_ONE` keeping the original and zero taking the matched
    /// content; amplitude and pitch pass through unchanged.
    pub fn match_features(
        &self,
        input: LatentRepresentation,
        matched: &Tensor3,
        alpha: u32,
    ) -> (r: Result<LatentRepresentation, ConvertError>)
        requires
            input.wf(),
            matched.wf(),
            alpha <= ALPHA_ONE,
        ensures
            r is Ok <==> {
                &&& matched.batches() == input.content.batches()
                &&& matched.channels() == input.content.channels()
                &&& matched.frames() == input.content.frames()
            },
            r is Err ==> r->Err_0 == ConvertError::ShapeMismatch,
            r is Ok ==> {
                &&& r->Ok_0.wf()
                &&& r->Ok_0.amplitude == input.amplitude
                &&& r->Ok_0.f0 == input.f0
                &&& r->Ok_0.content.batches() == input.content.batches()
                &&& r->Ok_0.content.channels() == input.content.channels()
                &&& r->Ok_0.content.frames() == input.content.frames()
                &&& forall|b: int, c: int, f: int|
                    0 <= b < input.content.batches() && 0 <= c < input.content.channels() && 0 <= f
                        < input.content.frames() ==> #[trigger] r->Ok_0.content.at(b, c, f)
                        == spec_blend(matched.at(b, c, f), input.content.at(b, c, f), alpha as int)
            },
    {
        let blended = blend_content(matched, &input.content, alpha)?;
        Ok(LatentRepresentation { amplitude: input.amplitude, content: blended, f0: input.f0 })
    }

    /// Shift every voiced pitch frame by `shift` on the log-pitch scale,
    /// other parts untouched; fails fast when a shifted value would leave
    /// the fixed-point range.
    pub fn pitch_shift(&self, input: LatentRepresentation, shift: i64) -> (r: Result<
        LatentRepresentation,
        ConvertError,
    >)
        requires
            input.wf(),
        ensures
            r is Ok <==> (forall|b: int, f: int|
                0 <= b < input.f0.batches() && 0 <= f < input.f0.frames()
                    ==> spec_shift_frame_ok(#[trigger] input.f0.at(b, f), shift as int)),
            r is Err ==> r->Err_0 == ConvertError::DomainError,
            r is Ok ==> {
                &&& r->Ok_0.wf()
                &&& r->Ok_0.amplitude == input.amplitude
                &&& r->Ok_0.content == input.content
                &&& r->Ok_0.f0.batches() == input.f0.batches()
                &&& r->Ok_0.f0.frames() == input.f0.frames()
                &&& forall|b: int, f: int|
                    0 <= b < input.f0.batches() && 0 <= f < input.f0.frames()
                        ==> #[trigger] r->Ok_0.f0.at(b, f) == spec_shift_frame(
                        input.f0.at(b, f),
                        shift as int,
                    )
            },
    {
        input.pitch_shift(shift)
    }

    /// The synthesis half of decoding: combine the exponentiated
    /// magnitudes with the phase tensors and run the raw inverse spectral
    /// transform. Succeeds exactly when the three tensors share a shape
    /// with `plan.bins()` bins, the values are in range, and the output
    /// length fits; each failure is reported as the corresponding error.
    pub fn decode_synthesize(
        &self,
        mag: &Tensor3,
        cosph: &Tensor3,
        sinph: &Tensor3,
    ) -> (r: Result<SignalBatch, ConvertError>)
        requires
            self.plan.wf(),
            mag.wf(),
            cosph.wf(),
            sinph.wf(),
        ensures
            r is Ok ==> {
                &&& r->Ok_0.wf()
                &&& r->Ok_0.batches() == mag.batches()
                &&& mag.batches() > 0 ==> r->Ok_0.row_len() == self.plan.hop * mag.frames()
                    + self.plan.hop + self.plan.n_fft
                &&& exists|cs: ComplexSpectrogram|
                    {
                        &&& (#[trigger] cs.wf())
                        &&& cs.batches() == mag.batches()
                        &&& cs.bins() == mag.channels()
                        &&& cs.frames() == mag.frames()
                        &&& forall|b: int, k: int, t: int|
                            0 <= b < mag.batches() && 0 <= k < mag.channels() && 0 <= t
                                < mag.frames() ==> #[trigger] cs.re_at(b, k, t) == div_trunc(
                                mag.at(b, k, t) * cosph.at(b, k, t),
                                TRIG_ONE as int,
                            ) && cs.im_at(b, k, t) == div_trunc(
                                mag.at(b, k, t) * sinph.at(b, k, t),
                                TRIG_ONE as int,
                            )
                        &&& forall|b: int, p: int|
                            0 <= b < mag.batches() && 0 <= p < self.plan.hop * mag.frames()
                                + self.plan.hop + self.plan.n_fft ==> #[trigger] r->Ok_0.at(b, p)
                                == spec_ola(
                                cs.re.data@[b]@,
                                cs.im.data@[b]@,
                                self.plan,
                                false,
                                mag.frames(),
                                p,
                            )
                    }
            },
            r is Ok <==> spec_synthesis_ok(self.plan, *mag, *cosph, *sinph),
            !spec_polar_shapes_ok(*mag, *cosph, *sinph) ==> (r is Err && r->Err_0
                == ConvertError::ShapeMismatch),
            spec_polar_shapes_ok(*mag, *cosph, *sinph) && !spec_polar_ranges_ok(
                *mag,
                *cosph,
                *sinph,
            ) ==> (r is Err && r->Err_0 == ConvertError::DomainError),
            spec_polar_shapes_ok(*mag, *cosph, *sinph) && spec_polar_ranges_ok(
                *mag,
                *cosph,
                *sinph,
            ) && mag.channels() != self.plan.bins() ==> (r is Err && r->Err_0
                == ConvertError::ShapeMismatch),
            spec_polar_shapes_ok(*mag, *cosph, *sinph) && spec_polar_ranges_ok(
                *mag,
                *cosph,
                *sinph,
            ) && mag.channels() == self.plan.bins() && mag.frames() >= 0x3_0000 ==> (r is Err
                && r->Err_0 == ConvertError::DomainError),
    {
        let cs = polar_to_complex(mag, cosph, sinph)?;
        if cs.re.channel_count() != self.plan.bin_count() {
            return Err(ConvertError::ShapeMismatch);
        }
        let frames = cs.re.frame_count();
        if frames >= 0x3_0000 {
            return Err(ConvertError::DomainError);
        }
        proof {
            assert(self.plan.hop * frames + self.plan.hop + self.plan.n_fft < 0x4000_0000)
                by (nonlinear_arith)
                requires
                    self.plan.hop <= 4096,
                    self.plan.n_fft <= 4096,
                    0 <= frames < 0x3_0000,
            ;
        }
        let out = istft_without_window(&cs, &self.plan);
        Ok(out)
    }
}

/// The next call the host must make into the inference engine or its
/// numeric runtime on the pipeline's behalf.
#[derive(Debug, PartialEq)]
pub enum EngineRequest {
    /// Run the content encoder on a magnitude spectrogram.
    ContentEncoder(Tensor3),
    /// Run the pitch estimator on a magnitude spectrogram.
    PitchEstimator(Tensor3),
    /// Run the voice-library matcher on content features.
    VoiceLibrary(Tensor3),
    /// Run the decoder on content, pitch track and amplitude envelope.
    Decoder(Tensor3, PitchTrack, Tensor3),
    /// Exponentiate a saturated log-magnitude tensor and return, with it,
    /// the cosine and sine of the decoder's phase output.
    Exponentiate(Tensor3),
}

/// The engine's answer to the last request, or its failure.
#[derive(Debug, PartialEq)]
pub enum EngineReply {
    Content(Tensor3),
    Pitch(PitchTrack),
    Matched(Tensor3),
    /// Decoder output: log-magnitude, cosine of phase, sine of phase.
    Spectra(Tensor3, Tensor3, Tensor3),
    Magnitude(Tensor3),
    Failed,
}

/// Where the conversion stands: what it is waiting for, and the data the
/// remaining stages still need.
#[derive(Debug, PartialEq)]
pub enum Stage {
    /// Waiting for the content encoder: envelope, magnitude spectrogram.
    AwaitContent(Tensor3, Tensor3),
    /// Waiting for the pitch estimator: envelope, content.
    AwaitPitch(Tensor3, Tensor3),
    /// Waiting for the voice-library match: the assembled latent.
    AwaitMatch(LatentRepresentation),
    /// Waiting for the decoder.
    AwaitSpectra,
    /// Waiting for the exponentiated magnitudes: cosine and sine of phase.
    AwaitMagnitude(Tensor3, Tensor3),
}

/// What a successful step yields: the next state with the next request,
/// or the finished waveform.
#[derive(Debug, PartialEq)]
pub enum ConvertStep {
    Continue(Conversion, EngineRequest),
    Done(SignalBatch),
}

/// Whether an engine reply is of the kind the stage awaits and its
/// payload is well formed; anything else aborts the conversion with an
/// inference error.
pub open spec fn spec_reply_fits(stage: Stage, reply: EngineReply) -> bool {
    match (stage, reply) {
        (Stage::AwaitContent(_, _), EngineReply::Content(c)) => c.wf(),
        (Stage::AwaitPitch(_, _), EngineReply::Pitch(f0)) => f0.wf(),
        (Stage::AwaitMatch(_), EngineReply::Matched(m)) => m.wf(),
        (Stage::AwaitSpectra, EngineReply::Spectra(lm, cp, sp)) => lm.wf() && cp.wf() && sp.wf(),
        (Stage::AwaitMagnitude(_, _), EngineReply::Magnitude(m)) => m.wf(),
        _ => false,
    }
}

/// One conversion in flight: strictly sequential, analysis to synthesis;
/// the first failure aborts it with that error.
#[derive(Debug, PartialEq)]
pub struct Conversion {
    pub convertor: VoiceConvertor,
    pub shift: i64,
    pub alpha: u32,
    pub stage: Stage,
}

impl Conversion {
    /// Well-formedness of the in-flight data.
    pub open spec fn wf(&self) -> bool {
        &&& self.convertor.plan.wf()
        &&& self.alpha <= ALPHA_ONE
        &&& match self.stage {
            Stage::AwaitContent(amp, mag) => amp.wf() && mag.wf(),
            Stage::AwaitPitch(amp, content) => amp.wf() && content.wf(),
            Stage::AwaitMatch(latent) => latent.wf(),
            Stage::AwaitSpectra => true,
            Stage::AwaitMagnitude(cosph, sinph) => cosph.wf() && sinph.wf(),
        }
    }

    /// Begin a conversion: run the analysis half of encoding and ask for
    /// the content encoding of the magnitude spectrogram. Fails fast, with
    /// a domain error, exactly when the blend factor exceeds its
    /// fixed-point one.
    pub fn start(
        convertor: VoiceConvertor,
        waves: &WaveformBatch,
        shift: i64,
        alpha: u32,
    ) -> (r: Result<(Conversion, EngineRequest), ConvertError>)
        requires
            convertor.plan.wf(),
            waves.wf(),
            waves.row_len() < 0x1000_0000,
        ensures
            r is Ok <==> alpha <= ALPHA_ONE,
            r is Err ==> r->Err_0 == ConvertError::DomainError,
            r is Ok ==> {
                let (conv, req) = r->Ok_0;
                &&& conv.wf()
                &&& conv.convertor == convertor
                &&& conv.shift == shift
                &&& conv.alpha == alpha
                &&& conv.stage is AwaitContent
                &&& req is ContentEncoder
                &&& req->ContentEncoder_0.agrees_with(&conv.stage->AwaitContent_1)
                &&& conv.stage->AwaitContent_0.batches() == waves.batches()
                &&& conv.stage->AwaitContent_1.batches() == waves.batches()
                &&& waves.batches() > 0 ==> {
                    &&& conv.stage->AwaitContent_0.channels() == 1
                    &&& conv.stage->AwaitContent_0.frames() == spec_stft_frames(
                        waves.row_len(),
                        convertor.plan.hop as nat,
                    )
                    &&& conv.stage->AwaitContent_1.channels() == convertor.plan.bins()
                    &&& conv.stage->AwaitContent_1.frames() == spec_stft_frames(
                        waves.row_len(),
                        convertor.plan.hop as nat,
                    )
                }
                &&& forall|b: int, f: int|
                    0 <= b < waves.batches() && 0 <= f < spec_envelope_frames(
                        waves.row_len(),
                        convertor.plan.hop as nat,
                    ) ==> #[trigger] conv.stage->AwaitContent_0.at(b, 0, f) == spec_envelope_at(
                        waves.rows@[b]@,
                        convertor.plan.hop as nat,
                        f as nat,
                    )
                &&& forall|b: int, f: int|
                    0 <= b < waves.batches() && spec_envelope_frames(
                        waves.row_len(),
                        convertor.plan.hop as nat,
                    ) <= f < spec_stft_frames(waves.row_len(), convertor.plan.hop as nat)
                        ==> #[trigger] conv.stage->AwaitContent_0.at(b, 0, f) == 0
                &&& forall|b: int, k: int, t: int|
                    0 <= b < waves.batches() && 0 <= k < convertor.plan.bins() && 0 <= t
                        < spec_stft_frames(waves.row_len(), convertor.plan.hop as nat) ==> {
                        let m = #[trigger] conv.stage->AwaitContent_1.at(b, k, t);
                        let re = spec_stft_re(waves.rows@[b]@, convertor.plan, k as nat, t as nat);
                        let im = spec_stft_im(waves.rows@[b]@, convertor.plan, k as nat, t as nat);
                        &&& 0 <= m
                        &&& m * m <= re * re + im * im
                        &&& re * re + im * im < (m + 1) * (m + 1)
                    }
            },
    {
        if alpha > ALPHA_ONE {
            return Err(ConvertError::DomainError);
        }
        let (amp, mag) = convertor.encode_analysis(waves);
        let req_mag = mag.duplicate();
        let conv = Conversion { convertor, shift, alpha, stage: Stage::AwaitContent(amp, mag) };
        Ok((conv, EngineRequest::ContentEncoder(req_mag)))
    }

    /// Advance the conversion by one engine reply. An engine failure, a
    /// reply of the wrong kind, or an ill-formed reply tensor aborts with
    /// an inference error; misaligned shapes abort with a shape mismatch;
    /// a pitch value leaving the fixed-point range or an out-of-range
    /// magnitude aborts with a domain error. Otherwise the step performs
    /// the stage's verified transform and names the next request, through
    /// to the synthesized waveform.
    pub fn step(self, reply: EngineReply) -> (r: Result<ConvertStep, ConvertError>)
        requires
            self.wf(),
        ensures
            reply is Failed ==> r == Result::<ConvertStep, ConvertError>::Err(
                ConvertError::InferenceError,
            ),
            r is Ok && r->Ok_0 is Continue ==> {
                let next = r->Ok_0->Continue_0;
                next.wf() && next.convertor == self.convertor && next.shift == self.shift
                    && next.alpha == self.alpha
            },
            self.stage is AwaitContent && reply is Content && reply->Content_0.wf() ==> {
                &&& r is Ok
                &&& r->Ok_0 is Continue
                &&& {
                    let next = r->Ok_0->Continue_0;
                    let req = r->Ok_0->Continue_1;
                    &&& next.stage is AwaitPitch
                    &&& next.stage->AwaitPitch_0 == self.stage->AwaitContent_0
                    &&& next.stage->AwaitPitch_1 == reply->Content_0
                    &&& req is PitchEstimator
                    &&& req->PitchEstimator_0 == self.stage->AwaitContent_1
                }
            },
            self.stage is AwaitPitch && reply is Pitch && reply->Pitch_0.wf() ==> {
                let latent = LatentRepresentation {
                    amplitude: self.stage->AwaitPitch_0,
                    content: self.stage->AwaitPitch_1,
                    f0: reply->Pitch_0,
                };
                &&& (r is Ok <==> latent.wf())
                &&& !latent.wf() ==> r == Result::<ConvertStep, ConvertError>::Err(
                    ConvertError::ShapeMismatch,
                )
                &&& latent.wf() ==> {
                    &&& r->Ok_0 is Continue
                    &&& {
                        let next = r->Ok_0->Continue_0;
                    let req = r->Ok_0->Continue_1;
                        &&& next.stage is AwaitMatch
                        &&& next.stage->AwaitMatch_0 == latent
                        &&& req is VoiceLibrary
                        &&& req->VoiceLibrary_0.agrees_with(&latent.content)
                    }
                }
            },
            self.stage is AwaitMatch && reply is Matched && reply->Matched_0.wf() ==> {
                let latent = self.stage->AwaitMatch_0;
                let matched = reply->Matched_0;
                let shapes_ok = matched.batches() == latent.content.batches()
                    && matched.channels() == latent.content.channels() && matched.frames()
                    == latent.content.frames();
                let shift_ok = forall|b: int, f: int|
                    0 <= b < latent.f0.batches() && 0 <= f < latent.f0.frames()
                        ==> spec_shift_frame_ok(#[trigger] latent.f0.at(b, f), self.shift as int);
                &&& (r is Ok <==> shapes_ok && shift_ok)
                &&& !shapes_ok ==> r == Result::<ConvertStep, ConvertError>::Err(
                    ConvertError::ShapeMismatch,
                )
                &&& shapes_ok && !shift_ok ==> r == Result::<ConvertStep, ConvertError>::Err(
                    ConvertError::DomainError,
                )
                &&& r is Ok ==> {
                    &&& r->Ok_0 is Continue
                    &&& {
                        let next = r->Ok_0->Continue_0;
                    let req = r->Ok_0->Continue_1;
                        &&& next.stage is AwaitSpectra
                        &&& req is Decoder
                        &&& {
                            let (content, f0, amp) = (
                                req->Decoder_0,
                                req->Decoder_1,
                                req->Decoder_2,
                            );
                            &&& amp == latent.amplitude
                            &&& content.batches() == latent.content.batches()
                            &&& content.channels() == latent.content.channels()
                            &&& content.frames() == latent.content.frames()
                            &&& forall|b: int, c: int, f: int|
                                0 <= b < latent.content.batches() && 0 <= c
                                    < latent.content.channels() && 0 <= f
                                    < latent.content.frames() ==> #[trigger] content.at(b, c, f)
                                    == spec_blend(
                                    matched.at(b, c, f),
                                    latent.content.at(b, c, f),
                                    self.alpha as int,
                                )
                            &&& f0.batches() == latent.f0.batches()
                            &&& f0.frames() == latent.f0.frames()
                            &&& forall|b: int, f: int|
                                0 <= b < latent.f0.batches() && 0 <= f < latent.f0.frames()
                                    ==> #[trigger] f0.at(b, f) == spec_shift_frame(
                                    latent.f0.at(b, f),
                                    self.shift as int,
                                )
                        }
                    }
                }
            },
            self.stage is AwaitSpectra && reply is Spectra && reply->Spectra_0.wf()
                && reply->Spectra_1.wf() && reply->Spectra_2.wf() ==> {
                &&& r is Ok
                &&& r->Ok_0 is Continue
                &&& {
                    let next = r->Ok_0->Continue_0;
                    let req = r->Ok_0->Continue_1;
                    &&& next.stage is AwaitMagnitude
                    &&& next.stage->AwaitMagnitude_0 == reply->Spectra_1
                    &&& next.stage->AwaitMagnitude_1 == reply->Spectra_2
                    &&& req is Exponentiate
                    &&& req->Exponentiate_0.batches() == reply->Spectra_0.batches()
                    &&& req->Exponentiate_0.channels() == reply->Spectra_0.channels()
                    &&& req->Exponentiate_0.frames() == reply->Spectra_0.frames()
                    &&& forall|b: int, c: int, f: int|
                        0 <= b < reply->Spectra_0.batches() && 0 <= c < reply->Spectra_0.channels()
                            && 0 <= f < reply->Spectra_0.frames()
                            ==> #[trigger] req->Exponentiate_0.at(b, c, f) == spec_clamp_log(
                            reply->Spectra_0.at(b, c, f),
                        )
                }
            },
            self.stage is AwaitMagnitude && reply is Magnitude && reply->Magnitude_0.wf() ==> {
                let mag = reply->Magnitude_0;
                let cosph = self.stage->AwaitMagnitude_0;
                let sinph = self.stage->AwaitMagnitude_1;
                let plan = self.convertor.plan;
                &&& (r is Ok <==> spec_synthesis_ok(plan, mag, cosph, sinph))
                &&& !spec_polar_shapes_ok(mag, cosph, sinph) ==> (r is Err && r->Err_0
                    == ConvertError::ShapeMismatch)
                &&& spec_polar_shapes_ok(mag, cosph, sinph) && !spec_polar_ranges_ok(
                    mag,
                    cosph,
                    sinph,
                ) ==> (r is Err && r->Err_0 == ConvertError::DomainError)
                &&& r is Ok ==> {
                    let out = r->Ok_0->Done_0;
                    &&& r->Ok_0 is Done
                    &&& out.wf()
                    &&& out.batches() == mag.batches()
                    &&& mag.batches() > 0 ==> out.row_len() == plan.hop * mag.frames()
                        + plan.hop + plan.n_fft
                    &&& exists|cs: ComplexSpectrogram|
                        {
                            &&& (#[trigger] cs.wf())
                            &&& cs.batches() == mag.batches()
                            &&& cs.bins() == mag.channels()
                            &&& cs.frames() == mag.frames()
                            &&& forall|b: int, k: int, t: int|
                                0 <= b < mag.batches() && 0 <= k < mag.channels() && 0 <= t
                                    < mag.frames() ==> #[trigger] cs.re_at(b, k, t) == div_trunc(
                                    mag.at(b, k, t) * cosph.at(b, k, t),
                                    TRIG_ONE as int,
                                ) && cs.im_at(b, k, t) == div_trunc(
                                    mag.at(b, k, t) * sinph.at(b, k, t),
                                    TRIG_ONE as int,
                                )
                            &&& forall|b: int, p: int|
                                0 <= b < mag.batches() && 0 <= p < plan.hop * mag.frames()
                                    + plan.hop + plan.n_fft ==> #[trigger] out.at(b, p)
                                    == spec_ola(
                                    cs.re.data@[b]@,
                                    cs.im.data@[b]@,
                                    plan,
                                    false,
                                    mag.frames(),
                                    p,
                                )
                        }
                }
            },
            !spec_reply_fits(self.stage, reply) ==> r == Result::<ConvertStep, ConvertError>::Err(
                ConvertError::InferenceError,
            ),
    {
        match (self.stage, reply) {
            (Stage::AwaitContent(amp, mag), EngineReply::Content(content)) => {
                if !content.check() {
                    return Err(ConvertError::InferenceError);
                }
                let next = Conversion {
                    convertor: self.convertor,
                    shift: self.shift,
                    alpha: self.alpha,
                    stage: Stage::AwaitPitch(amp, content),
                };
                Ok(ConvertStep::Continue(next, EngineRequest::PitchEstimator(mag)))
            },
            (Stage::AwaitPitch(amp, content), EngineReply::Pitch(f0)) => {
                if !f0.check() {
                    return Err(ConvertError::InferenceError);
                }
                let latent = LatentRepresentation::new(amp, content, f0)?;
                let req = EngineRequest::VoiceLibrary(latent.content.duplicate());
                let next = Conversion {
                    convertor: self.convertor,
                    shift: self.shift,
                    alpha: self.alpha,
                    stage: Stage::AwaitMatch(latent),
                };
                Ok(ConvertStep::Continue(next, req))
            },
            (Stage::AwaitMatch(latent), EngineReply::Matched(matched)) => {
                if !matched.check() {
                    return Err(ConvertError::InferenceError);
                }
                let convertor = self.convertor;
                let blended = convertor.match_features(latent, &matched, self.alpha)?;
                let shifted = convertor.pitch_shift(blended, self.shift)?;
                let req = EngineRequest::Decoder(shifted.content, shifted.f0, shifted.amplitude);
                let next = Conversion {
                    convertor,
                    shift: self.shift,
                    alpha: self.alpha,
                    stage: Stage::AwaitSpectra,
                };
                Ok(ConvertStep::Continue(next, req))
            },
            (Stage::AwaitSpectra, EngineReply::Spectra(log_mag, cosph, sinph)) => {
                if !log_mag.check() || !cosph.check() || !sinph.check() {
                    return Err(ConvertError::InferenceError);
                }
                let clamped = clamp_log_magnitude(&log_mag);
                let next = Conversion {
                    convertor: self.convertor,
                    shift: self.shift,
                    alpha: self.alpha,
                    stage: Stage::AwaitMagnitude(cosph, sinph),
                };
                Ok(ConvertStep::Continue(next, EngineRequest::Exponentiate(clamped)))
            },
            (Stage::AwaitMagnitude(cosph, sinph), EngineReply::Magnitude(mag)) => {
                if !mag.check() {
                    return Err(ConvertError::InferenceError);
                }
                let out = self.convertor.decode_synthesize(&mag, &cosph, &sinph)?;
                Ok(ConvertStep::Done(out))
            },
            _ => Err(ConvertError::InferenceError),
        }
    }
}

} // verus!
