//! Sample-rate conversion. Each batch row is resampled independently by a
//! band-limited interpolation resampler from an outside crate and the rows
//! are restacked; rows that come back with differing lengths are rejected
//! rather than truncated or padded. Equal input and output rates return
//! the waveform unchanged at any rate; a zero rate, or differing rates
//! outside what the resampler's 32-bit filter arithmetic holds, fail fast.

use crate::wave::WaveformBatch;
use crate::ConvertError;
use fon::chan::Ch16;
use fon::Audio;
use vstd::prelude::*;

verus! {

/// Rate pairs the resampler supports: both rates positive and at most one
/// megahertz, neither more than 256 times the other. Within these bounds
/// the outside resampler's filter-length arithmetic (a 160-tap base filter
/// scaled by the simplified rate ratio, then multiplied by the simplified
/// denominator) stays below 32-bit overflow, so the call cannot panic.
pub open spec fn spec_rates_supported(input_rate: u32, output_rate: u32) -> bool {
    &&& 1 <= input_rate <= 1_000_000
    &&& 1 <= output_rate <= 1_000_000
    &&& input_rate <= 256 * output_rate
    &&& output_rate <= 256 * input_rate
}

/// Runtime check of `spec_rates_supported`.
pub fn rates_supported(input_rate: u32, output_rate: u32) -> (r: bool)
    ensures
        r == spec_rates_supported(input_rate, output_rate),
{
    1 <= input_rate && input_rate <= 1_000_000 && 1 <= output_rate && output_rate <= 1_000_000
        && input_rate <= 256 * output_rate && output_rate <= 256 * input_rate
}

/// What the outside resampler returns for one row of samples carried from
/// `input_rate` hertz to `output_rate` hertz: a deterministic function of
/// its arguments alone.
pub uninterp spec fn spec_resampled(samples: Seq<i16>, input_rate: u32, output_rate: u32) -> Seq<
    i16,
>;

/// Relies on fon's `Audio::with_audio`, a band-limited (speex-derived)
/// stream resampler: it computes a pure function of the sample data and
/// the two rates. Its filter arithmetic works in 32-bit integers on the
/// simplified rate ratio and panics on overflow; the supported-rate bounds
/// keep every such product in range, zero rates are excluded with them,
/// and an empty row is returned empty without entering the filter.
#[verifier::external_body]
fn resample_row(samples: &Vec<i16>, input_rate: u32, output_rate: u32) -> (r: Vec<i16>)
    requires
        spec_rates_supported(input_rate, output_rate),
        samples.len() <= 0x4000_0000,
    ensures
        r@ == spec_resampled(samples@, input_rate, output_rate),
{
    let audio = Audio::<Ch16, 1>::with_i16_buffer(input_rate, samples.clone());
    let mut out = Audio::<Ch16, 1>::with_audio(output_rate, &audio);
    out.as_i16_slice().to_vec()
}

/// Resample every row of a batch from `input_rate` to `output_rate`.
///
/// A zero rate is a domain error, detected before any work. Equal positive
/// rates return the rows unchanged — the identity needs no resampler, so
/// it holds for any rate. Between differing rates, a pair outside
/// `spec_rates_supported` (a rate above one megahertz, or a ratio beyond
/// 256) is a domain error; otherwise every row is resampled in isolation,
/// and the call succeeds exactly when all resampled rows come back equally
/// long, failing with a shape mismatch otherwise.
pub fn resample(waves: &WaveformBatch, input_rate: u32, output_rate: u32) -> (r: Result<
    WaveformBatch,
    ConvertError,
>)
    requires
        waves.wf(),
        waves.row_len() <= 0x4000_0000,
    ensures
        input_rate == 0 || output_rate == 0 ==> r == Result::<
            WaveformBatch,
            ConvertError,
        >::Err(ConvertError::DomainError),
        input_rate > 0 && input_rate == output_rate ==> {
            &&& r is Ok
            &&& r->Ok_0.wf()
            &&& r->Ok_0.batches() == waves.batches()
            &&& forall|b: int|
                0 <= b < waves.batches() ==> #[trigger] r->Ok_0.rows@[b]@ == waves.rows@[b]@
        },
        input_rate != output_rate && !spec_rates_supported(input_rate, output_rate) ==> r
            == Result::<WaveformBatch, ConvertError>::Err(ConvertError::DomainError),
        spec_rates_supported(input_rate, output_rate) && input_rate != output_rate ==> {
            &&& r is Ok <==> (forall|b: int|
                0 <= b < waves.batches() ==> (#[trigger] spec_resampled(
                    waves.rows@[b]@,
                    input_rate,
                    output_rate,
                )).len() == spec_resampled(waves.rows@[0]@, input_rate, output_rate).len())
            &&& r is Err ==> r->Err_0 == ConvertError::ShapeMismatch
            &&& r is Ok ==> {
                &&& r->Ok_0.wf()
                &&& r->Ok_0.batches() == waves.batches()
                &&& forall|b: int|
                    0 <= b < waves.batches() ==> #[trigger] r->Ok_0.rows@[b]@ == spec_resampled(
                        waves.rows@[b]@,
                        input_rate,
                        output_rate,
                    )
            }
        },
{
    if input_rate == 0 || output_rate == 0 {
        return Err(ConvertError::DomainError);
    }
    if input_rate == output_rate {
        let n = waves.rows.len();
        let mut rows: Vec<Vec<i16>> = Vec::new();
        for b in 0..n
            invariant
                waves.wf(),
                n == waves.batches(),
                rows@.len() == b,
                forall|x: int| 0 <= x < b ==> #[trigger] rows@[x]@ == waves.rows@[x]@,
        {
            rows.push(waves.rows[b].clone());
        }
        let out = WaveformBatch { rows };
        proof {
            assert forall|b: int| 0 <= b < out.batches() implies (#[trigger] out.rows@[b]@).len()
                == out.row_len() by {
                assert(out.rows@[b]@ == waves.rows@[b]@);
                if out.batches() > 0 {
                    assert(out.rows@[0]@ == waves.rows@[0]@);
                }
            }
        }
        return Ok(out);
    }
    if !rates_supported(input_rate, output_rate) {
        return Err(ConvertError::DomainError);
    }
    let n = waves.rows.len();
    let mut rows: Vec<Vec<i16>> = Vec::new();
    for b in 0..n
        invariant
            waves.wf(),
            waves.row_len() <= 0x4000_0000,
            spec_rates_supported(input_rate, output_rate),
            input_rate != output_rate,
            n == waves.batches(),
            rows@.len() == b,
            forall|x: int|
                0 <= x < b ==> #[trigger] rows@[x]@ == spec_resampled(
                    waves.rows@[x]@,
                    input_rate,
                    output_rate,
                ),
            forall|x: int|
                0 <= x < b ==> (#[trigger] rows@[x]@).len() == spec_resampled(
                    waves.rows@[0]@,
                    input_rate,
                    output_rate,
                ).len(),
    {
        let row = resample_row(&waves.rows[b], input_rate, output_rate);
        if b > 0 && row.len() != rows[0].len() {
            proof {
                assert(spec_resampled(waves.rows@[b as int]@, input_rate, output_rate).len()
                    != spec_resampled(waves.rows@[0]@, input_rate, output_rate).len());
            }
            return Err(ConvertError::ShapeMismatch);
        }
        rows.push(row);
    }
    let out = WaveformBatch { rows };
    proof {
        if out.batches() > 0 {
            assert(out.rows@[0]@ == spec_resampled(waves.rows@[0]@, input_rate, output_rate));
        }
        assert(out.wf());
        assert forall|b: int| 0 <= b < waves.batches() implies (#[trigger] spec_resampled(
            waves.rows@[b]@,
            input_rate,
            output_rate,
        )).len() == spec_resampled(waves.rows@[0]@, input_rate, output_rate).len() by {
            assert(out.rows@[b]@ == spec_resampled(waves.rows@[b]@, input_rate, output_rate));
        }
    }
    Ok(out)
}

} // verus!
