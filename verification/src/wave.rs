//! Waveform batches: ordered sets of equally long rows of audio samples.
//! Input audio carries 16-bit samples; synthesized audio carries wide
//! fixed-point samples on the same scale, quantized back to 16 bits with
//! saturation before it leaves the pipeline.

use crate::ConvertError;
use crate::SIGNAL_LIMIT;
use vstd::prelude::*;

verus! {

/// A batch of equally long rows of 16-bit audio samples.
#[derive(Clone, Debug, PartialEq)]
pub struct WaveformBatch {
    pub rows: Vec<Vec<i16>>,
}

impl WaveformBatch {
    /// Row count.
    pub open spec fn batches(&self) -> nat {
        self.rows@.len()
    }

    /// Samples per row (of the first row; the invariant makes all equal).
    pub open spec fn row_len(&self) -> nat {
        if self.rows@.len() == 0 {
            0
        } else {
            self.rows@[0]@.len()
        }
    }

    /// The sample at `[b, i]`.
    pub open spec fn at(&self, b: int, i: int) -> int {
        self.rows@[b]@[i] as int
    }

    /// Well-formedness: every row has the same length.
    pub open spec fn wf(&self) -> bool {
        forall|b: int|
            0 <= b < self.batches() ==> (#[trigger] self.rows@[b]@).len() == self.row_len()
    }

    /// Wrap rows into a batch: accepted exactly when all rows are equally
    /// long.
    pub fn from_rows(rows: Vec<Vec<i16>>) -> (r: Result<WaveformBatch, ConvertError>)
        ensures
            r is Ok <==> (WaveformBatch { rows: rows }).wf(),
            r is Ok ==> r->Ok_0 == (WaveformBatch { rows: rows }),
            r is Err ==> r->Err_0 == ConvertError::ShapeMismatch,
    {
        let w = WaveformBatch { rows };
        let n = w.rows.len();
        if n == 0 {
            return Ok(w);
        }
        let len = w.rows[0].len();
        for b in 0..n
            invariant
                w == (WaveformBatch { rows: rows }),
                n == w.rows@.len(),
                n > 0,
                len == w.row_len(),
                forall|i: int| 0 <= i < b ==> (#[trigger] w.rows@[i]@).len() == len,
        {
            if w.rows[b].len() != len {
                proof {
                    assert((w.rows@[b as int]@).len() != w.row_len());
                    assert(!w.wf());
                }
                return Err(ConvertError::ShapeMismatch);
            }
        }
        Ok(w)
    }

    /// Row count, executable.
    pub fn batch_count(&self) -> (r: usize)
        ensures
            r == self.batches(),
    {
        self.rows.len()
    }

    /// Samples per row, executable.
    pub fn sample_count(&self) -> (r: usize)
        ensures
            r == self.row_len(),
    {
        if self.rows.len() == 0 {
            0
        } else {
            self.rows[0].len()
        }
    }
}

/// A sample clamped into the 16-bit range.
pub open spec fn spec_saturate16(x: int) -> int {
    if x > i16::MAX as int {
        i16::MAX as int
    } else if x < i16::MIN as int {
        i16::MIN as int
    } else {
        x
    }
}

/// A batch of equally long rows of wide fixed-point samples, as the
/// inverse spectral transform produces them.
#[derive(Clone, Debug, PartialEq)]
pub struct SignalBatch {
    pub rows: Vec<Vec<i64>>,
}

impl SignalBatch {
    /// Row count.
    pub open spec fn batches(&self) -> nat {
        self.rows@.len()
    }

    /// Samples per row (of the first row; the invariant makes all equal).
    pub open spec fn row_len(&self) -> nat {
        if self.rows@.len() == 0 {
            0
        } else {
            self.rows@[0]@.len()
        }
    }

    /// The sample at `[b, i]`.
    pub open spec fn at(&self, b: int, i: int) -> int {
        self.rows@[b]@[i] as int
    }

    /// Well-formedness: rectangular, every sample within `SIGNAL_LIMIT`.
    pub open spec fn wf(&self) -> bool {
        &&& forall|b: int|
            0 <= b < self.batches() ==> (#[trigger] self.rows@[b]@).len() == self.row_len()
        &&& forall|b: int, i: int|
            0 <= b < self.batches() && 0 <= i < self.row_len() ==> -SIGNAL_LIMIT
                <= #[trigger] self.rows@[b]@[i] <= SIGNAL_LIMIT
    }

    /// Row count, executable.
    pub fn batch_count(&self) -> (r: usize)
        ensures
            r == self.batches(),
    {
        self.rows.len()
    }

    /// Samples per row, executable.
    pub fn sample_count(&self) -> (r: usize)
        ensures
            r == self.row_len(),
    {
        if self.rows.len() == 0 {
            0
        } else {
            self.rows[0].len()
        }
    }

    /// The sample at `[b, i]`, executable.
    pub fn sample_at(&self, b: usize, i: usize) -> (r: i64)
        requires
            self.wf(),
            b < self.batches(),
            i < self.row_len(),
        ensures
            r == self.at(b as int, i as int),
    {
        self.rows[b][i]
    }

    /// Quantize back to 16-bit samples, saturating at the type's range, as
    /// audio leaves the pipeline for a file container.
    pub fn quantize(&self) -> (r: WaveformBatch)
        requires
            self.wf(),
        ensures
            r.wf(),
            r.batches() == self.batches(),
            r.row_len() == self.row_len(),
            forall|b: int, i: int|
                0 <= b < self.batches() && 0 <= i < self.row_len() ==> r.at(b, i)
                    == spec_saturate16(self.at(b, i)),
    {
        let n = self.rows.len();
        let mut out: Vec<Vec<i16>> = Vec::new();
        for b in 0..n
            invariant
                self.wf(),
                n == self.batches(),
                out@.len() == b,
                forall|x: int| 0 <= x < b ==> (#[trigger] out@[x]@).len() == self.row_len(),
                forall|x: int, i: int|
                    0 <= x < b && 0 <= i < self.row_len() ==> #[trigger] out@[x]@[i] as int
                        == spec_saturate16(self.at(x, i)),
        {
            let len = self.rows[b].len();
            let mut row: Vec<i16> = Vec::new();
            for i in 0..len
                invariant
                    self.wf(),
                    b < self.batches(),
                    len == self.row_len(),
                    row@.len() == i,
                    forall|j: int|
                        0 <= j < i ==> #[trigger] row@[j] as int == spec_saturate16(
                            self.at(b as int, j),
                        ),
            {
                let v = self.rows[b][i];
                let q: i16 = if v > i16::MAX as i64 {
                    i16::MAX
                } else if v < i16::MIN as i64 {
                    i16::MIN
                } else {
                    v as i16
                };
                row.push(q);
            }
            out.push(row);
        }
        let r = WaveformBatch { rows: out };
        proof {
            if r.batches() > 0 {
                assert(r.rows@[0]@.len() == self.row_len());
            }
        }
        r
    }
}

} // verus!
