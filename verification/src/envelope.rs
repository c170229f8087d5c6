//! Amplitude-envelope extraction: one loudness scalar per hop of the raw
//! waveform — the mean absolute sample value over each contiguous,
//! non-overlapping chunk of `hop` samples, the final partial chunk
//! included. The mean is the truncating integer mean on the fixed-point
//! sample scale.

use crate::frames::spec_envelope_frames;
use crate::tensor::Tensor3;
use crate::wave::WaveformBatch;
use vstd::arithmetic::div_mod::{
    lemma_div_by_multiple, lemma_div_is_ordered, lemma_div_pos_is_pos,
};
use vstd::prelude::*;

verus! {

/// Absolute value of a 16-bit sample.
pub open spec fn spec_abs16(x: int) -> int {
    if x < 0 {
        -x
    } else {
        x
    }
}

/// Sum of absolute sample values of `row[start .. start + count]`.
pub open spec fn spec_abs_sum(row: Seq<i16>, start: int, count: nat) -> int
    decreases count,
{
    if count == 0 {
        0
    } else {
        spec_abs_sum(row, start, (count - 1) as nat) + spec_abs16(
            row[start + count - 1] as int,
        )
    }
}

/// Length of envelope chunk `f` of a row of `len` samples: a full hop,
/// except for a final partial chunk.
pub open spec fn spec_chunk_len(len: nat, hop: nat, f: nat) -> nat
    recommends
        hop > 0,
        f < spec_envelope_frames(len, hop),
{
    if (f + 1) * hop <= len {
        hop
    } else {
        (len - f * hop) as nat
    }
}

/// The envelope value of chunk `f`: the truncating mean of the absolute
/// sample values over the chunk.
pub open spec fn spec_envelope_at(row: Seq<i16>, hop: nat, f: nat) -> int
    recommends
        hop > 0,
        f < spec_envelope_frames(row.len(), hop),
{
    spec_abs_sum(row, f * hop as int, spec_chunk_len(row.len(), hop, f)) as int
        / spec_chunk_len(row.len(), hop, f) as int
}

/// The absolute-value sum over a chunk is at most the chunk length times
/// the largest sample magnitude.
proof fn lemma_abs_sum_bounded(row: Seq<i16>, start: int, count: nat)
    requires
        0 <= start,
        start + count <= row.len(),
    ensures
        0 <= spec_abs_sum(row, start, count) <= count * 0x8000,
    decreases count,
{
    if count > 0 {
        lemma_abs_sum_bounded(row, start, (count - 1) as nat);
        assert((count - 1) * 0x8000 + 0x8000 == count * 0x8000) by (nonlinear_arith);
    }
}

/// Extract the amplitude envelope of each row: `[B, 1, F]` with
/// `F = ceil(row_len / hop)` frames, each the truncating mean of absolute
/// sample values over its chunk.
pub fn amplitude(waves: &WaveformBatch, hop: usize) -> (r: Tensor3)
    requires
        waves.wf(),
        hop >= 1,
        waves.row_len() + hop < 0x4000_0000,
    ensures
        r.wf(),
        r.batches() == waves.batches(),
        waves.batches() > 0 ==> r.channels() == 1,
        waves.batches() > 0 ==> r.frames() == spec_envelope_frames(
            waves.row_len(),
            hop as nat,
        ),
        forall|b: int, f: int|
            0 <= b < waves.batches() && 0 <= f < spec_envelope_frames(
                waves.row_len(),
                hop as nat,
            ) ==> #[trigger] r.at(b, 0, f) == spec_envelope_at(
                waves.rows@[b]@,
                hop as nat,
                f as nat,
            ),
{
    let b_count = waves.rows.len();
    let len = waves.sample_count();
    proof {
        vstd::arithmetic::div_mod::lemma_div_nonincreasing(len as int, hop as int);
    }
    let f_count = if len % hop == 0 {
        len / hop
    } else {
        len / hop + 1
    };
    assert(f_count * hop < len + hop) by {
        vstd::arithmetic::div_mod::lemma_fundamental_div_mod(len as int, hop as int);
        assert(f_count <= len / hop + 1);
        assert((len / hop + 1) * hop == len / hop * hop + hop) by (nonlinear_arith);
        vstd::arithmetic::div_mod::lemma_div_pos_is_pos(len as int, hop as int);
        if len % hop == 0 {
            assert(f_count * hop == len / hop * hop);
        } else {
            assert(f_count * hop == len / hop * hop + hop) by (nonlinear_arith)
                requires
                    f_count == len / hop + 1,
            ;
        }
    }
    let mut out: Vec<Vec<Vec<i64>>> = Vec::new();
    for b in 0..b_count
        invariant
            waves.wf(),
            b_count == waves.batches(),
            hop >= 1,
            len == waves.row_len(),
            len + hop < 0x4000_0000,
            f_count == spec_envelope_frames(len as nat, hop as nat),
            f_count * hop < len + hop,
            out@.len() == b,
            forall|x: int| 0 <= x < b ==> (#[trigger] out@[x]@).len() == 1,
            forall|x: int| 0 <= x < b ==> (#[trigger] out@[x]@[0]@).len() == f_count,
            forall|x: int, f: int|
                0 <= x < b && 0 <= f < f_count ==> #[trigger] out@[x]@[0]@[f] as int
                    == spec_envelope_at(waves.rows@[x]@, hop as nat, f as nat),
            forall|x: int, f: int|
                0 <= x < b && 0 <= f < f_count ==> 0 <= #[trigger] out@[x]@[0]@[f] <= 0x8000,
    {
        let mut env: Vec<i64> = Vec::new();
        for f in 0..f_count
            invariant
                waves.wf(),
                b < waves.batches(),
                hop >= 1,
                len == waves.row_len(),
                len + hop < 0x4000_0000,
                f_count == spec_envelope_frames(len as nat, hop as nat),
                f_count * hop < len + hop,
                env@.len() == f,
                forall|g: int|
                    0 <= g < f ==> #[trigger] env@[g] as int == spec_envelope_at(
                        waves.rows@[b as int]@,
                        hop as nat,
                        g as nat,
                    ),
                forall|g: int| 0 <= g < f ==> 0 <= #[trigger] env@[g] <= 0x8000,
        {
            proof {
                assert(f * hop + hop <= f_count * hop) by (nonlinear_arith)
                    requires
                        f < f_count,
                        hop >= 1,
                ;
                assert((f + 1) * hop == f * hop + hop) by (nonlinear_arith);
            }
            let start = f * hop;
            let chunk = if start + hop <= len {
                hop
            } else {
                len - start
            };
            proof {
                assert(chunk == spec_chunk_len(len as nat, hop as nat, f as nat));
                if start >= len {
                    // Every chunk begins inside the row: f < ceil(len/hop)
                    // puts f * hop below len.
                    assert(f <= f_count - 1);
                    assert(f * hop <= (f_count - 1) * hop) by (nonlinear_arith)
                        requires
                            f <= f_count - 1,
                            hop >= 1,
                    ;
                    assert((f_count - 1) * hop < len) by {
                        vstd::arithmetic::div_mod::lemma_fundamental_div_mod(
                            len as int,
                            hop as int,
                        );
                        if len % hop == 0 {
                            assert((f_count - 1) * hop == len / hop * hop - hop)
                                by (nonlinear_arith)
                                requires
                                    f_count == len / hop,
                            ;
                        } else {
                            assert((f_count - 1) * hop == len / hop * hop) by (nonlinear_arith)
                                requires
                                    f_count == len / hop + 1,
                            ;
                        }
                    }
                    assert(false);
                }
            }
            proof {
                assert(chunk * 0x8000 < 0x7fff_ffff_ffff_ffff) by (nonlinear_arith)
                    requires
                        0 <= chunk < 0x4000_0000,
                ;
            }
            let mut sum: i64 = 0;
            for i in 0..chunk
                invariant
                    waves.wf(),
                    b < waves.batches(),
                    len == waves.row_len(),
                    start == f * hop,
                    start + chunk <= len,
                    chunk <= hop,
                    hop >= 1,
                    sum == spec_abs_sum(waves.rows@[b as int]@, start as int, i as nat),
                    0 <= sum <= i * 0x8000,
                    i <= chunk,
                    chunk * 0x8000 < 0x7fff_ffff_ffff_ffff,
            {
                let v = waves.rows[b][start + i];
                let a: i64 = if v < 0 {
                    -(v as i64)
                } else {
                    v as i64
                };
                proof {
                    assert(i * 0x8000 + 0x8000 == (i + 1) * 0x8000) by (nonlinear_arith);
                    assert((i + 1) * 0x8000 <= chunk * 0x8000) by (nonlinear_arith)
                        requires
                            i + 1 <= chunk,
                    ;
                }
                sum = sum + a;
            }
            proof {
                lemma_abs_sum_bounded(
                    waves.rows@[b as int]@,
                    start as int,
                    chunk as nat,
                );
            }
            let mean = sum / (chunk as i64);
            proof {
                lemma_div_pos_is_pos(sum as int, chunk as int);
                lemma_div_is_ordered(sum as int, chunk as int * 0x8000, chunk as int);
                lemma_div_by_multiple(0x8000, chunk as int);
                assert(chunk as int * 0x8000 == 0x8000 * chunk as int) by (nonlinear_arith);
                assert(mean == spec_envelope_at(waves.rows@[b as int]@, hop as nat, f as nat));
            }
            env.push(mean);
        }
        let mut channel: Vec<Vec<i64>> = Vec::new();
        channel.push(env);
        out.push(channel);
    }
    let r = Tensor3 { data: out };
    proof {
        if r.batches() > 0 {
            assert(r.data@[0]@.len() == 1);
            assert(r.data@[0]@[0]@.len() == f_count);
        }
        assert(r.wf());
    }
    r
}

} // verus!
