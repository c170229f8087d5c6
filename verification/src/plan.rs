//! The spectral analysis plan: window length, hop length, and the
//! fixed-point raised-cosine window and trigonometric tables that the
//! forward and inverse transforms share. The numeric tables are data,
//! validated here once; the transforms' contracts state their results as
//! exact formulas over these tables.

use crate::ConvertError;
use crate::{TRIG_ONE, WINDOW_ONE};
use vstd::prelude::*;

verus! {

/// Analysis parameters and tables for the spectral transforms.
///
/// `window` is the analysis window (raised-cosine with a small positive
/// floor, scaled by `WINDOW_ONE`); `cos_table[i]` and `sin_table[i]` hold
/// cosine and sine of `2*pi*i/n_fft`, scaled by `TRIG_ONE`.
#[derive(Clone, Debug, PartialEq)]
pub struct SpectralPlan {
    pub n_fft: usize,
    pub hop: usize,
    pub window: Vec<i64>,
    pub cos_table: Vec<i64>,
    pub sin_table: Vec<i64>,
}

impl SpectralPlan {
    /// Frequency-bin count of a real-input transform: `n_fft / 2 + 1`.
    pub open spec fn bins(&self) -> nat {
        self.n_fft as nat / 2 + 1
    }

    /// Well-formedness: an even window length between 4 and 4096, a
    /// positive hop no larger than the window and no more than sixteen
    /// times smaller (bounding how many frames can overlap one sample), tables
    /// of window length, a strictly positive window no larger than twice
    /// its fixed-point one, and trigonometric values within their
    /// fixed-point one.
    pub open spec fn wf(&self) -> bool {
        &&& 4 <= self.n_fft <= 4096
        &&& self.n_fft % 2 == 0
        &&& 1 <= self.hop <= self.n_fft
        &&& self.n_fft <= 16 * self.hop
        &&& self.window@.len() == self.n_fft
        &&& self.cos_table@.len() == self.n_fft
        &&& self.sin_table@.len() == self.n_fft
        &&& forall|i: int|
            0 <= i < self.n_fft ==> 1 <= #[trigger] self.window@[i] <= 2 * WINDOW_ONE
        &&& forall|i: int|
            0 <= i < self.n_fft ==> -TRIG_ONE <= #[trigger] self.cos_table@[i] <= TRIG_ONE
        &&& forall|i: int|
            0 <= i < self.n_fft ==> -TRIG_ONE <= #[trigger] self.sin_table@[i] <= TRIG_ONE
    }

    /// Build a plan from its parameters and tables: accepted exactly when
    /// the well-formedness conditions hold.
    pub fn new(
        n_fft: usize,
        hop: usize,
        window: Vec<i64>,
        cos_table: Vec<i64>,
        sin_table: Vec<i64>,
    ) -> (r: Result<SpectralPlan, ConvertError>)
        ensures
            r is Ok <==> (SpectralPlan { n_fft, hop, window, cos_table, sin_table }).wf(),
            r is Ok ==> r->Ok_0 == (SpectralPlan { n_fft, hop, window, cos_table, sin_table }),
            r is Err ==> r->Err_0 == ConvertError::DomainError,
    {
        let p = SpectralPlan { n_fft, hop, window, cos_table, sin_table };
        if !(4 <= p.n_fft && p.n_fft <= 4096 && p.n_fft % 2 == 0) {
            return Err(ConvertError::DomainError);
        }
        if p.hop < 1 || p.hop > p.n_fft || (p.hop <= 256 && p.n_fft > 16 * p.hop) {
            return Err(ConvertError::DomainError);
        }
        if p.window.len() != p.n_fft || p.cos_table.len() != p.n_fft || p.sin_table.len()
            != p.n_fft {
            return Err(ConvertError::DomainError);
        }
        for i in 0..p.n_fft
            invariant
                p == (SpectralPlan { n_fft, hop, window, cos_table, sin_table }),
                p.n_fft == p.window@.len(),
                p.n_fft == p.cos_table@.len(),
                p.n_fft == p.sin_table@.len(),
                forall|j: int| 0 <= j < i ==> 1 <= #[trigger] p.window@[j] <= 2 * WINDOW_ONE,
                forall|j: int| 0 <= j < i ==> -TRIG_ONE <= #[trigger] p.cos_table@[j] <= TRIG_ONE,
                forall|j: int| 0 <= j < i ==> -TRIG_ONE <= #[trigger] p.sin_table@[j] <= TRIG_ONE,
        {
            let w = p.window[i];
            if w < 1 || w > 2 * WINDOW_ONE {
                proof {
                    assert(!(1 <= p.window@[i as int] <= 2 * WINDOW_ONE));
                    assert(!p.wf());
                }
                return Err(ConvertError::DomainError);
            }
            let c = p.cos_table[i];
            if c < -TRIG_ONE || c > TRIG_ONE {
                proof {
                    assert(!(-TRIG_ONE <= p.cos_table@[i as int] <= TRIG_ONE));
                    assert(!p.wf());
                }
                return Err(ConvertError::DomainError);
            }
            let s = p.sin_table[i];
            if s < -TRIG_ONE || s > TRIG_ONE {
                proof {
                    assert(!(-TRIG_ONE <= p.sin_table@[i as int] <= TRIG_ONE));
                    assert(!p.wf());
                }
                return Err(ConvertError::DomainError);
            }
        }
        Ok(p)
    }

    /// Frequency-bin count, executable.
    pub fn bin_count(&self) -> (r: usize)
        requires
            self.wf(),
        ensures
            r == self.bins(),
    {
        self.n_fft / 2 + 1
    }
}

} // verus!
